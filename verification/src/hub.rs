//! Reading a notes hub: the plan, the changelog and the decision log.
//!
//! The hub is markdown written by hand over months, so the reader is
//! deliberately forgiving. It recognises what the files of a hub actually
//! look like rather than a format someone promised to keep:
//!
//! - a stage heading is any heading whose first word is a version (`v0.4.0`),
//!   at whatever heading level, with the title after a separator;
//! - a closed stage in the changelog carries a date somewhere in its heading,
//!   in any of the shapes the hubs use;
//! - a checkbox line under a stage is one of its tasks;
//! - a decision is a dated heading in the decision log.
//!
//! What it cannot read it reports; nothing is skipped silently.
use vstd::prelude::*;
use crate::text::{Class, all_in, all_of, append, append_str, chars_of, chars_of_string, contains, count_char, count_of, drop_lead, dropped_lead, find, find_str, first_word, first_word_of, gap_after, gap_of, is_space, lead, lead_of, lemma_lead_bounds, lemma_trim_start_first, lemma_trim_start_suffix, lines, lines_of, lit, opt_chars, rfind, rfind_in, same, same_str, slice, split_by, split_class, split_once, split_once_at, split_once_by, split_once_class, starts, starts_str, starts_with, strings, strip_prefix, strip_suffix, stripped_prefix, stripped_suffix, text_of, trim, trim_end, trim_start, trimmed, trimmed_end, trimmed_start, views};

verus! {

/// A task: one checkbox line under a stage.
#[derive(Debug, Clone, PartialEq)]
pub struct Task {
    pub title: String,
    pub done: bool,
}

/// A task as its characters.
pub struct TaskView {
    pub title: Seq<char>,
    pub done: bool,
}

impl View for Task {
    type V = TaskView;

    open spec fn view(&self) -> TaskView {
        TaskView { title: self.title@, done: self.done }
    }
}

/// Splits a heading line into its level and text: `## v0.4.0 · Title`.
pub open spec fn heading(line: Seq<char>) -> Option<(int, Seq<char>)> {
    let h = lead(line, Class::Is('#')) as int;
    if h == 0 || h > 6 {
        None
    } else if h < line.len() && line[h] == ' ' {
        Some((h, trim(line.skip(h + 1))))
    } else {
        None
    }
}

pub fn heading_of(line: &Vec<char>) -> (r: Option<(usize, Vec<char>)>)
    ensures
        r matches Some(x) ==> heading(line@) == Some((x.0 as int, x.1@)),
        r is None ==> heading(line@) is None,
        r matches Some(x) ==> 1 <= x.0 <= 6,
{
    let h = lead_of(line, Class::Is('#'));
    if h == 0 || h > 6 {
        return None;
    }
    if h < line.len() && line[h] == ' ' {
        let rest = slice(line, h + 1, line.len());
        Some((h, trimmed(&rest)))
    } else {
        None
    }
}

/// A version at the start of a heading: `v0.4.0`, `v1.0`, `v0.4.0-rc1`.
///
/// At least one dot, so a bare `v2` in prose is not mistaken for one.
pub open spec fn leading_version(text: Seq<char>) -> Option<Seq<char>> {
    match first_word(text) {
        None => None,
        Some(w) => {
            if w.len() > 0 && w[0] == 'v' {
                let rest = w.drop_first();
                let d = lead(rest, Class::NotDot) as int;
                if 0 < d < rest.len() && all_in(rest.take(d), Class::Digit) {
                    Some(w)
                } else {
                    None
                }
            } else {
                None
            }
        },
    }
}

pub proof fn lemma_first_word_len(s: Seq<char>)
    ensures
        first_word(s) matches Some(w) ==> 0 < w.len() <= s.len() && s.skip(s.len() - trim_start(s).len()).take(w.len() as int) == w,
{
    lemma_trim_start_suffix(s);
    lemma_trim_start_first(s);
    let t = trim_start(s);
    if t.len() > 0 {
        lemma_lead_bounds(t, Class::NotSpace);
        assert(!is_space(t[0]));
    }
}

pub fn leading_version_of(text: &Vec<char>) -> (r: Option<Vec<char>>)
    ensures
        r matches Some(w) ==> leading_version(text@) == Some(w@),
        r is None ==> leading_version(text@) is None,
        r matches Some(w) ==> w@.len() <= text@.len(),
{
    proof {
        lemma_first_word_len(text@);
    }
    let w = match first_word_of(text) {
        Some(w) => w,
        None => return None,
    };
    if w.len() > 0 && w[0] == 'v' {
        let rest = slice(&w, 1, w.len());
        assert(rest@ == w@.drop_first());
        let d = lead_of(&rest, Class::NotDot);
        let first = slice(&rest, 0, d);
        if 0 < d && d < rest.len() && all_of(&first, Class::Digit) {
            Some(w)
        } else {
            None
        }
    } else {
        None
    }
}

/// A date in one word of a heading: three runs of digits split by dashes or
/// dots, with the year first or last. Given back in ISO order.
pub open spec fn date_of_word(w: Seq<char>) -> Option<Seq<char>> {
    let parts = split_class(w, Class::DashOrDot);
    if parts.len() == 3 && all_in(parts[0], Class::Digit) && all_in(parts[1], Class::Digit)
        && all_in(parts[2], Class::Digit) {
        if parts[0].len() == 4 {
            Some(parts[0] + seq!['-'] + parts[1] + seq!['-'] + parts[2])
        } else if parts[2].len() == 4 {
            Some(parts[2] + seq!['-'] + parts[1] + seq!['-'] + parts[0])
        } else {
            None
        }
    } else {
        None
    }
}

/// The first word that is a date.
pub open spec fn first_date(words: Seq<Seq<char>>) -> Option<Seq<char>>
    decreases words.len(),
{
    if words.len() == 0 {
        None
    } else {
        match date_of_word(words[0]) {
            Some(d) => Some(d),
            None => first_date(words.drop_first()),
        }
    }
}

/// A date anywhere in a heading tail, in the shapes the hubs use:
/// `2026-09-03` and `03.09.2026`. Returned normalised to ISO.
pub open spec fn trailing_date(text: Seq<char>) -> Option<Seq<char>> {
    first_date(split_class(text, Class::NotDate))
}

fn date_of_word_exec(w: &Vec<char>) -> (r: Option<Vec<char>>)
    ensures
        r matches Some(d) ==> date_of_word(w@) == Some(d@),
        r is None ==> date_of_word(w@) is None,
{
    let parts = split_by(w, Class::DashOrDot);
    if parts.len() != 3 {
        return None;
    }
    assert(parts@[0]@ == split_class(w@, Class::DashOrDot)[0]);
    assert(parts@[1]@ == split_class(w@, Class::DashOrDot)[1]);
    assert(parts@[2]@ == split_class(w@, Class::DashOrDot)[2]);
    if !(all_of(&parts[0], Class::Digit) && all_of(&parts[1], Class::Digit) && all_of(&parts[2], Class::Digit)) {
        return None;
    }
    let (a, b) = if parts[0].len() == 4 {
        (0, 2)
    } else if parts[2].len() == 4 {
        (2, 0)
    } else {
        return None;
    };
    let mut out: Vec<char> = Vec::new();
    append(&mut out, &parts[a]);
    out.push('-');
    append(&mut out, &parts[1]);
    out.push('-');
    append(&mut out, &parts[b]);
    proof {
        let p = split_class(w@, Class::DashOrDot);
        assert(out@ =~= p[a as int] + seq!['-'] + p[1] + seq!['-'] + p[b as int]);
    }
    Some(out)
}

pub fn trailing_date_of(text: &Vec<char>) -> (r: Option<Vec<char>>)
    ensures
        r matches Some(d) ==> trailing_date(text@) == Some(d@),
        r is None ==> trailing_date(text@) is None,
{
    let words = split_by(text, Class::NotDate);
    let ghost all = views(words@);
    assert(all.skip(0) =~= all);
    for i in 0..words.len()
        invariant
            all == views(words@),
            all == split_class(text@, Class::NotDate),
            first_date(all) == first_date(all.skip(i as int)),
    {
        assert(all.skip(i as int).drop_first() =~= all.skip(i + 1));
        assert(all.skip(i as int)[0] == words@[i as int]@);
        match date_of_word_exec(&words[i]) {
            Some(d) => {
                assert(all.skip(i as int).len() > 0);
                assert(first_date(all.skip(i as int)) == Some(d@));
                return Some(d);
            },
            None => {},
        }
    }
    None
}

/// The version a stage actually shipped as, when its heading names one
/// after the word "выпущен": `v1.9 · Title — закрыт 2026-09-03, выпущен **v1.9.0**`.
pub open spec fn released_version(tail: Seq<char>) -> Option<Seq<char>> {
    match find(tail, "выпущен"@) {
        None => None,
        Some(at) => first_release(split_class(tail.skip(at), Class::SpaceOrStar)),
    }
}

/// The first word that is a version and nothing else.
pub open spec fn first_release(words: Seq<Seq<char>>) -> Option<Seq<char>>
    decreases words.len(),
{
    if words.len() == 0 {
        None
    } else {
        match leading_version(words[0]) {
            Some(v) if v.len() == words[0].len() => Some(v),
            _ => first_release(words.drop_first()),
        }
    }
}

pub fn released_version_of(tail: &Vec<char>) -> (r: Option<Vec<char>>)
    ensures
        r matches Some(d) ==> released_version(tail@) == Some(d@),
        r is None ==> released_version(tail@) is None,
{
    let at = match find_str(tail, "выпущен") {
        Some(at) => at,
        None => return None,
    };
    let rest = slice(tail, at, tail.len());
    assert(rest@ == tail@.skip(at as int));
    let words = split_by(&rest, Class::SpaceOrStar);
    let ghost all = views(words@);
    assert(all.skip(0) =~= all);
    for i in 0..words.len()
        invariant
            all == views(words@),
            all == split_class(tail@.skip(at as int), Class::SpaceOrStar),
            find(tail@, "выпущен"@) == Some(at as int),
            first_release(all) == first_release(all.skip(i as int)),
    {
        assert(all.skip(i as int).drop_first() =~= all.skip(i + 1));
        assert(all.skip(i as int)[0] == words@[i as int]@);
        match leading_version_of(&words[i]) {
            Some(v) => {
                if v.len() == words[i].len() {
                    assert(all.skip(i as int).len() > 0);
                    assert(first_release(all.skip(i as int)) == Some(v@));
                    return Some(v);
                }
            },
            None => {},
        }
    }
    None
}

/// The title of a stage: what follows the version, minus the release note.
///
/// Hub headings read `v0.2.0 · Three forms — shipped 2026-09-03`; the title
/// is the middle, and the tail after the em dash is bookkeeping.
pub open spec fn stage_title(text: Seq<char>, version: Seq<char>) -> Option<Seq<char>> {
    let rest = trim(text.skip(version.len() as int));
    let rest = trim(drop_lead(rest, Class::TitleLead));
    let title = trim(split_class(rest, Class::TitleEnd)[0]);
    if title.len() > 0 {
        Some(title)
    } else {
        None
    }
}

pub fn stage_title_of(text: &Vec<char>, version: &Vec<char>) -> (r: Option<Vec<char>>)
    requires
        version@.len() <= text@.len(),
    ensures
        r matches Some(d) ==> stage_title(text@, version@) == Some(d@),
        r is None ==> stage_title(text@, version@) is None,
{
    let rest = slice(text, version.len(), text.len());
    let rest = trimmed(&rest);
    let rest = dropped_lead(&rest, Class::TitleLead);
    let rest = trimmed(&rest);
    let pieces = split_by(&rest, Class::TitleEnd);
    assert(pieces@[0]@ == split_class(rest@, Class::TitleEnd)[0]);
    let title = trimmed(&pieces[0]);
    if title.len() > 0 {
        Some(title)
    } else {
        None
    }
}

/// A checkbox line: `- [ ] title`, `* [x] title`.
pub open spec fn parse_task(line: Seq<char>) -> Option<TaskView> {
    let rest = trim_start(line);
    let body = match strip_prefix(rest, "- "@) {
        Some(x) => Some(x),
        None => strip_prefix(rest, "* "@),
    };
    match body {
        None => None,
        Some(r) => {
            if r.len() < 4 {
                None
            } else {
                let mark = r.take(3);
                let done = if mark == "[ ]"@ {
                    Some(false)
                } else if mark == "[x]"@ || mark == "[X]"@ {
                    Some(true)
                } else {
                    None
                };
                match done {
                    None => None,
                    Some(d) => {
                        let title = trim(r.skip(3));
                        if title.len() > 0 {
                            Some(TaskView { title, done: d })
                        } else {
                            None
                        }
                    },
                }
            }
        },
    }
}

pub fn parse_task_of(line: &Vec<char>) -> (r: Option<Task>)
    ensures
        r matches Some(t) ==> parse_task(line@) == Some(t@),
        r is None ==> parse_task(line@) is None,
{
    let rest = trimmed_start(line);
    let body = match stripped_prefix(&rest, "- ") {
        Some(x) => x,
        None => match stripped_prefix(&rest, "* ") {
            Some(x) => x,
            None => return None,
        },
    };
    if body.len() < 4 {
        return None;
    }
    let mark = slice(&body, 0, 3);
    let done = if same_str(&mark, "[ ]") {
        false
    } else if same_str(&mark, "[x]") || same_str(&mark, "[X]") {
        true
    } else {
        return None;
    };
    let rest = slice(&body, 3, body.len());
    let title = trimmed(&rest);
    if title.len() > 0 {
        Some(Task { title: text_of(&title), done })
    } else {
        None
    }
}

/// Whether a bold opening is the date of a state line, or just bold text:
/// a stamp starts with digits and a separator, the way a date does.
pub open spec fn looks_like_a_date(text: Seq<char>) -> bool {
    let t = trim(text);
    let d = lead(t, Class::Digit) as int;
    if d == 0 {
        false
    } else {
        let rest = t.skip(d);
        rest.len() > 0 && (rest[0] == '-' || rest[0] == '.' || rest[0] == '/')
            && lead(rest.drop_first(), Class::Digit) > 0
    }
}

pub fn looks_like_a_date_of(text: &Vec<char>) -> (r: bool)
    ensures
        r == looks_like_a_date(text@),
{
    let t = trimmed(text);
    let d = lead_of(&t, Class::Digit);
    if d == 0 {
        return false;
    }
    if d >= t.len() {
        return false;
    }
    let c = t[d];
    if !(c == '-' || c == '.' || c == '/') {
        return false;
    }
    let rest = slice(&t, d + 1, t.len());
    assert(rest@ == t@.skip(d as int).drop_first());
    lead_of(&rest, Class::Digit) > 0
}


/// An item of the questions list: a bullet, a checkbox or a number.
pub open spec fn question_item(t: Seq<char>) -> Option<Seq<char>> {
    match strip_prefix(t, "- [ ] "@) {
        Some(x) => Some(x),
        None => match strip_prefix(t, "- [x] "@) {
            Some(x) => Some(x),
            None => match strip_prefix(t, "- [X] "@) {
                Some(x) => Some(x),
                None => match strip_prefix(t, "- "@) {
                    Some(x) => Some(x),
                    None => match strip_prefix(t, "* "@) {
                        Some(x) => Some(x),
                        None => match split_once(t, ". "@) {
                            Some(parts) => if all_in(parts.0, Class::Digit) {
                                Some(parts.1)
                            } else {
                                None
                            },
                            None => None,
                        },
                    },
                },
            },
        },
    }
}

fn question_item_of(t: &Vec<char>) -> (r: Option<Vec<char>>)
    ensures
        r matches Some(x) ==> question_item(t@) == Some(x@),
        r is None ==> question_item(t@) is None,
{
    if let Some(x) = stripped_prefix(t, "- [ ] ") {
        return Some(x);
    }
    if let Some(x) = stripped_prefix(t, "- [x] ") {
        return Some(x);
    }
    if let Some(x) = stripped_prefix(t, "- [X] ") {
        return Some(x);
    }
    if let Some(x) = stripped_prefix(t, "- ") {
        return Some(x);
    }
    if let Some(x) = stripped_prefix(t, "* ") {
        return Some(x);
    }
    match split_once_at(t, ". ") {
        Some((n, rest)) => {
            if all_of(&n, Class::Digit) {
                Some(rest)
            } else {
                None
            }
        },
        None => None,
    }
}

/// Reading the questions: the ones found, and whether the walk is under
/// the heading that lists them.
pub open spec fn questions_step(st: (Seq<Seq<char>>, bool), line: Seq<char>) -> (Seq<Seq<char>>, bool) {
    match heading(line) {
        Some(h) => (st.0, starts_with(h.1, "Ждёт решения владельца"@)),
        None => {
            if !st.1 {
                st
            } else {
                match question_item(trim(line)) {
                    Some(item) => {
                        let item = trim(item);
                        if item.len() > 0 && item != "(пусто)"@ {
                            (st.0.push(item), st.1)
                        } else {
                            st
                        }
                    },
                    None => st,
                }
            }
        },
    }
}

pub open spec fn questions_state(ls: Seq<Seq<char>>) -> (Seq<Seq<char>>, bool)
    decreases ls.len(),
{
    if ls.len() == 0 {
        (Seq::empty(), false)
    } else {
        questions_step(questions_state(ls.drop_last()), ls.last())
    }
}

/// Questions waiting for the owner: the list under that heading, until the
/// next heading. Numbered or bulleted; the placeholder line is not a question.
pub open spec fn questions(text: Seq<char>) -> Seq<Seq<char>> {
    questions_state(lines(text)).0
}

pub fn parse_questions(text: &str) -> (r: Vec<String>)
    ensures
        strings(r@) == questions(text@),
{
    let chars = chars_of(text);
    let ls = lines_of(&chars);
    let ghost all = views(ls@);
    let mut out: Vec<String> = Vec::new();
    let mut inside = false;
    for i in 0..ls.len()
        invariant
            all == views(ls@),
            (strings(out@), inside) == questions_state(all.take(i as int)),
    {
        assert(all.take(i + 1).drop_last() =~= all.take(i as int));
        assert(all.take(i + 1).last() == ls@[i as int]@);
        let line = &ls[i];
        match heading_of(line) {
            Some((_, head)) => {
                inside = starts_str(&head, "Ждёт решения владельца");
            },
            None => {
                if inside {
                    let t = trimmed(line);
                    match question_item_of(&t) {
                        Some(item) => {
                            let item = trimmed(&item);
                            if item.len() > 0 && !same_str(&item, "(пусто)") {
                                let ghost before = strings(out@);
                                out.push(text_of(&item));
                                assert(strings(out@) =~= before.push(item@));
                            }
                        },
                        None => {},
                    }
                }
            },
        }
    }
    assert(all.take(ls.len() as int) =~= all);
    out
}

/// A dated entry of the decision log, kept whole: the body is prose the
/// owner wrote, and it is stored rather than re-interpreted.
#[derive(Debug, Clone, PartialEq)]
pub struct Decision {
    pub date: String,
    pub title: String,
    pub body: String,
}

pub struct DecisionView {
    pub date: Seq<char>,
    pub title: Seq<char>,
    pub body: Seq<char>,
}

impl View for Decision {
    type V = DecisionView;

    open spec fn view(&self) -> DecisionView {
        DecisionView { date: self.date@, title: self.title@, body: self.body@ }
    }
}

pub open spec fn decision_views(v: Seq<Decision>) -> Seq<DecisionView> {
    v.map_values(|d: Decision| d@)
}

/// The title of a decision heading: what follows the first `·` or `—`, or
/// the whole heading when nothing does.
pub open spec fn decision_title(head: Seq<char>) -> Seq<char> {
    match split_once_class(head, Class::DateTitle) {
        Some(parts) => if trim(parts.1).len() > 0 {
            trim(parts.1)
        } else {
            head
        },
        None => head,
    }
}

/// Hands the collected body to the last decision.
pub open spec fn close_decision(ds: Seq<DecisionView>, body: Seq<char>) -> Seq<DecisionView> {
    if ds.len() > 0 {
        ds.update(ds.len() - 1, DecisionView { body: trim(body), ..ds.last() })
    } else {
        ds
    }
}

pub open spec fn decisions_step(st: (Seq<DecisionView>, Seq<char>), line: Seq<char>) -> (Seq<DecisionView>, Seq<char>) {
    match heading(line) {
        Some(h) => {
            let ds = close_decision(st.0, st.1);
            match trailing_date(h.1) {
                Some(date) => (ds.push(DecisionView { date, title: decision_title(h.1), body: Seq::empty() }), Seq::empty()),
                None => (ds, Seq::empty()),
            }
        },
        None => {
            if st.0.len() > 0 && trim(line) != "---"@ {
                (st.0, st.1 + line.push('\n'))
            } else {
                st
            }
        },
    }
}

pub open spec fn decisions_state(ls: Seq<Seq<char>>) -> (Seq<DecisionView>, Seq<char>)
    decreases ls.len(),
{
    if ls.len() == 0 {
        (Seq::empty(), Seq::empty())
    } else {
        decisions_step(decisions_state(ls.drop_last()), ls.last())
    }
}

/// The decision log: every dated heading and the prose under it.
pub open spec fn decisions(text: Seq<char>) -> Seq<DecisionView> {
    let st = decisions_state(lines(text));
    close_decision(st.0, st.1)
}

fn close_decision_exec(ds: &mut Vec<Decision>, body: &Vec<char>)
    ensures
        decision_views(final(ds)@) == close_decision(decision_views(old(ds)@), body@),
{
    if ds.len() > 0 {
        let ghost before = decision_views(ds@);
        let mut last = ds.pop().unwrap();
        let t = trimmed(body);
        last.body = text_of(&t);
        let ghost l = last@;
        ds.push(last);
        assert(decision_views(ds@) =~= before.update(before.len() - 1, l));
    }
}

#[verifier::rlimit(40)]
pub fn parse_decisions(text: &str) -> (r: Vec<Decision>)
    ensures
        decision_views(r@) == decisions(text@),
{
    let chars = chars_of(text);
    let ls = lines_of(&chars);
    let ghost all = views(ls@);
    let mut out: Vec<Decision> = Vec::new();
    let mut body: Vec<char> = Vec::new();
    for i in 0..ls.len()
        invariant
            all == views(ls@),
            (decision_views(out@), body@) == decisions_state(all.take(i as int)),
    {
        assert(all.take(i + 1).drop_last() =~= all.take(i as int));
        assert(all.take(i + 1).last() == ls@[i as int]@);
        let line = &ls[i];
        match heading_of(line) {
            Some((_, head)) => {
                close_decision_exec(&mut out, &body);
                body = Vec::new();
                match trailing_date_of(&head) {
                    Some(date) => {
                        let title = match split_once_by(&head, Class::DateTitle) {
                            Some((_, t)) => {
                                let t = trimmed(&t);
                                if t.len() > 0 {
                                    t
                                } else {
                                    head.clone()
                                }
                            },
                            None => head.clone(),
                        };
                        let ghost before = decision_views(out@);
                        let d = Decision { date: text_of(&date), title: text_of(&title), body: String::new() };
                        let ghost dv = d@;
                        out.push(d);
                        assert(decision_views(out@) =~= before.push(dv));
                    },
                    None => {},
                }
            },
            None => {
                let t = trimmed(line);
                if out.len() > 0 && !same_str(&t, "---") {
                    append(&mut body, line);
                    body.push('\n');
                }
            },
        }
    }
    assert(all.take(ls.len() as int) =~= all);
    close_decision_exec(&mut out, &body);
    out
}

/// One line of a README's state block: a date and what happened.
///
/// The date is kept whole, mark and all - a hub writes `2026-09-05 (ночь)`
/// to tell three sittings of one day apart.
#[derive(Debug, Clone, PartialEq)]
pub struct StateLine {
    /// The date and its mark, or nothing at all: a hub may close the block
    /// with a line that carries no date.
    pub stamp: Option<String>,
    pub body: String,
    /// Blank lines between this line and the next.
    pub gap_after: usize,
}

pub struct StateLineView {
    pub stamp: Option<Seq<char>>,
    pub body: Seq<char>,
    pub gap_after: int,
}

impl View for StateLine {
    type V = StateLineView;

    open spec fn view(&self) -> StateLineView {
        StateLineView { stamp: opt_chars(self.stamp), body: self.body@, gap_after: self.gap_after as int }
    }
}

pub open spec fn state_views(v: Seq<StateLine>) -> Seq<StateLineView> {
    v.map_values(|d: StateLine| d@)
}

/// What a bulleted line of the state block says: a stamp in bold and what
/// happened, or what happened alone.
pub open spec fn state_line(rest: Seq<char>) -> StateLineView {
    let split = match strip_prefix(rest, "**"@) {
        Some(r) => split_once(r, "**"@),
        None => None,
    };
    match split {
        Some(parts) => if looks_like_a_date(parts.0) {
            StateLineView {
                stamp: Some(trim(parts.0)),
                body: trim(drop_lead(trim_start(parts.1), Class::Dashes)),
                gap_after: 0,
            }
        } else {
            StateLineView { stamp: None, body: trim(rest), gap_after: 0 }
        },
        None => StateLineView { stamp: None, body: trim(rest), gap_after: 0 },
    }
}

/// Reading the state block: the lines found, whether the walk is inside the
/// block, and the blank lines since the last one.
pub open spec fn state_step(st: (Seq<StateLineView>, bool, int), line: Seq<char>) -> (Seq<StateLineView>, bool, int) {
    match heading(line) {
        Some(h) => (st.0, starts_with(h.1, "Состояние"@), st.2),
        None => {
            if !st.1 {
                st
            } else if trim(line).len() == 0 {
                (st.0, st.1, st.2 + 1)
            } else {
                match strip_prefix(trim(line), "- "@) {
                    None => st,
                    Some(rest) => {
                        let item = state_line(rest);
                        if item.body.len() == 0 {
                            st
                        } else {
                            let out = if st.0.len() > 0 {
                                st.0.update(st.0.len() - 1, StateLineView { gap_after: st.2, ..st.0.last() })
                            } else {
                                st.0
                            };
                            (out.push(item), st.1, 0)
                        }
                    },
                }
            }
        },
    }
}

pub open spec fn state_state(ls: Seq<Seq<char>>) -> (Seq<StateLineView>, bool, int)
    decreases ls.len(),
{
    if ls.len() == 0 {
        (Seq::empty(), false, 0)
    } else {
        state_step(state_state(ls.drop_last()), ls.last())
    }
}

/// The "Состояние" block of a README: one dated line per thing worth
/// telling, newest first.
pub open spec fn state(text: Seq<char>) -> Seq<StateLineView> {
    state_state(lines(text)).0
}

fn state_line_of(rest: &Vec<char>) -> (r: StateLine)
    ensures
        r@ == state_line(rest@),
{
    let split = match stripped_prefix(rest, "**") {
        Some(r) => split_once_at(&r, "**"),
        None => None,
    };
    match split {
        Some((stamp, body)) => {
            if looks_like_a_date_of(&stamp) {
                let s = trimmed(&stamp);
                let b = trimmed_start(&body);
                let b = dropped_lead(&b, Class::Dashes);
                let b = trimmed(&b);
                return StateLine { stamp: Some(text_of(&s)), body: text_of(&b), gap_after: 0 };
            }
        },
        None => {},
    }
    let b = trimmed(rest);
    StateLine { stamp: None, body: text_of(&b), gap_after: 0 }
}

pub fn parse_state(text: &str) -> (r: Vec<StateLine>)
    ensures
        state_views(r@) == state(text@),
{
    let chars = chars_of(text);
    let ls = lines_of(&chars);
    let ghost all = views(ls@);
    let mut out: Vec<StateLine> = Vec::new();
    let mut inside = false;
    let mut blank: usize = 0;
    for i in 0..ls.len()
        invariant
            all == views(ls@),
            (state_views(out@), inside, blank as int) == state_state(all.take(i as int)),
            blank <= i,
    {
        assert(all.take(i + 1).drop_last() =~= all.take(i as int));
        assert(all.take(i + 1).last() == ls@[i as int]@);
        let line = &ls[i];
        match heading_of(line) {
            Some((_, head)) => {
                inside = starts_str(&head, "Состояние");
            },
            None => {
                if inside {
                    let t = trimmed(line);
                    if t.len() == 0 {
                        blank = blank + 1;
                    } else {
                        match stripped_prefix(&t, "- ") {
                            None => {},
                            Some(rest) => {
                                let item = state_line_of(&rest);
                                if !item.body.as_str().is_empty() {
                                    let ghost before = state_views(out@);
                                    if out.len() > 0 {
                                        let mut last = out.pop().unwrap();
                                        last.gap_after = blank;
                                        out.push(last);
                                    }
                                    let ghost mid = state_views(out@);
                                    assert(mid =~= (if before.len() > 0 {
                                        before.update(before.len() - 1, StateLineView { gap_after: blank as int, ..before.last() })
                                    } else {
                                        before
                                    }));
                                    let ghost iv = item@;
                                    out.push(item);
                                    assert(state_views(out@) =~= mid.push(iv));
                                    blank = 0;
                                }
                            },
                        }
                    }
                }
            },
        }
    }
    assert(all.take(ls.len() as int) =~= all);
    out
}


/// The line an export writes above a generated file. It is bookkeeping, not
/// content: taken as prose it would be written back with a second mark
/// above it, and the record would gain a run on every round trip.
pub const MARK: &'static str = "<!-- generated by rigger from the record; edit the record, not this file -->";

/// A run of prose in a hub file that belongs to no stage: a preamble, a
/// map, a heading that groups stages into blocks.
#[derive(Debug, Clone, PartialEq)]
pub struct Prose {
    pub file: String,
    /// Where it sat among the file's other runs, so it can be put back.
    pub position: usize,
    /// The heading it came under, kept whole (`## Блок «Владелец»`).
    pub heading: Option<String>,
    pub body: String,
    /// How many blank lines stood between the run and what followed it.
    pub gap_after: usize,
}

pub struct ProseView {
    pub file: Seq<char>,
    pub position: int,
    pub heading: Option<Seq<char>>,
    pub body: Seq<char>,
    pub gap_after: int,
}

impl View for Prose {
    type V = ProseView;

    open spec fn view(&self) -> ProseView {
        ProseView {
            file: self.file@,
            position: self.position as int,
            heading: opt_chars(self.heading),
            body: self.body@,
            gap_after: self.gap_after as int,
        }
    }
}

pub open spec fn prose_views(v: Seq<Prose>) -> Seq<ProseView> {
    v.map_values(|d: Prose| d@)
}

/// Closes the run being collected: kept when it holds words or a heading.
pub open spec fn flush(heading: Option<Seq<char>>, body: Seq<char>, runs: Seq<ProseView>, file: Seq<char>) -> Seq<ProseView> {
    let text = trim(body);
    if text.len() > 0 || heading is Some {
        runs.push(ProseView { gap_after: gap_after(body), file, position: runs.len() as int, heading, body: text })
    } else {
        runs
    }
}

/// The walk over a file for its prose: the runs closed so far, how many
/// runs stood before each line, the run being collected and its heading,
/// whether the walk is inside a stage or an entry and at what depth that
/// opened, and whether it is inside a fenced block.
pub struct ProseWalk {
    pub runs: Seq<ProseView>,
    pub positions: Seq<int>,
    pub body: Seq<char>,
    pub heading_now: Option<Seq<char>>,
    pub inside_entry: bool,
    pub entry_depth: int,
    pub fence: bool,
}

/// Whether a heading starts something that another reader captures: a
/// version heading becomes a stage, and a dated one in the diary an entry.
pub open spec fn starts_entry(head: Seq<char>, depth: int, is_diary: bool) -> bool {
    leading_version(head) is Some || (is_diary && depth <= 2 && trailing_date(head) is Some)
}

pub open spec fn prose_step(w: ProseWalk, line: Seq<char>, file: Seq<char>) -> ProseWalk {
    let pos = w.runs.len() + if w.heading_now is Some || trim(w.body).len() > 0 {
        1int
    } else {
        0int
    };
    let positions = w.positions.push(pos);
    if trim(line) == MARK@ {
        ProseWalk { positions, ..w }
    } else {
        let fence = if starts_with(trim_start(line), "```"@) {
            !w.fence
        } else {
            w.fence
        };
        let fenced = w.fence || fence;
        match heading(line) {
            Some(h) if !fenced => {
                if starts_entry(h.1, h.0, contains(file, "Дневник"@)) {
                    let runs = if !w.inside_entry {
                        flush(w.heading_now, w.body, w.runs, file)
                    } else {
                        w.runs
                    };
                    ProseWalk {
                        runs,
                        positions,
                        body: Seq::empty(),
                        heading_now: None,
                        inside_entry: true,
                        entry_depth: h.0,
                        fence,
                    }
                } else if w.inside_entry && h.0 > w.entry_depth {
                    ProseWalk { positions, fence, ..w }
                } else {
                    let runs = if !w.inside_entry {
                        flush(w.heading_now, w.body, w.runs, file)
                    } else {
                        w.runs
                    };
                    ProseWalk {
                        runs,
                        positions,
                        body: Seq::empty(),
                        heading_now: Some(line),
                        inside_entry: false,
                        entry_depth: w.entry_depth,
                        fence,
                    }
                }
            },
            _ => {
                let body = if !w.inside_entry {
                    w.body + line.push('\n')
                } else {
                    w.body
                };
                ProseWalk { positions, body, fence, ..w }
            },
        }
    }
}

pub open spec fn prose_walk(ls: Seq<Seq<char>>, file: Seq<char>) -> ProseWalk
    decreases ls.len(),
{
    if ls.len() == 0 {
        ProseWalk {
            runs: Seq::empty(),
            positions: Seq::empty(),
            body: Seq::empty(),
            heading_now: None,
            inside_entry: false,
            entry_depth: 0,
            fence: false,
        }
    } else {
        prose_step(prose_walk(ls.drop_last(), file), ls.last(), file)
    }
}

pub proof fn lemma_positions_len(ls: Seq<Seq<char>>, file: Seq<char>)
    ensures
        prose_walk(ls, file).positions.len() == ls.len(),
    decreases ls.len(),
{
    if ls.len() > 0 {
        lemma_positions_len(ls.drop_last(), file);
    }
}

/// The runs of prose of a file, and how many of them stood before each line.
pub open spec fn prose_and_positions(text: Seq<char>, file: Seq<char>) -> (Seq<ProseView>, Seq<int>) {
    let w = prose_walk(lines(text), file);
    let runs = if !w.inside_entry {
        flush(w.heading_now, w.body, w.runs, file)
    } else {
        w.runs
    };
    (runs, w.positions)
}

/// Prose of a file that belongs to no stage and no entry: the preamble, and
/// the headings that group stages into blocks.
pub open spec fn prose(text: Seq<char>, file: Seq<char>) -> Seq<ProseView> {
    prose_and_positions(text, file).0
}

/// How many runs of prose stood before each line of a file.
pub open spec fn prose_positions(text: Seq<char>) -> Seq<int> {
    prose_and_positions(text, Seq::empty()).1
}

fn flush_exec(heading: Option<Vec<char>>, body: &Vec<char>, runs: &mut Vec<Prose>, file: &Vec<char>)
    ensures
        final(runs)@.len() <= old(runs)@.len() + 1,
        prose_views(final(runs)@) == flush(
            match heading {
                Some(h) => Some(h@),
                None => None,
            },
            body@,
            prose_views(old(runs)@),
            file@,
        ),
{
    let text = trimmed(body);
    let gap = gap_of(body);
    let has = heading.is_some();
    if text.len() > 0 || has {
        let ghost before = prose_views(runs@);
        let h = match heading {
            Some(h) => Some(text_of(&h)),
            None => None,
        };
        let p = Prose { gap_after: gap, file: text_of(file), position: runs.len(), heading: h, body: text_of(&text) };
        let ghost pv = p@;
        runs.push(p);
        assert(prose_views(runs@) =~= before.push(pv));
    }
}

pub open spec fn opt_view(o: Option<Vec<char>>) -> Option<Seq<char>> {
    match o {
        Some(h) => Some(h@),
        None => None,
    }
}

/// The runs of prose of a file and the positions of its lines.
pub fn prose_and_positions_of(text: &Vec<char>, file: &Vec<char>) -> (r: (Vec<Prose>, Vec<usize>))
    ensures
        prose_views(r.0@) == prose_and_positions(text@, file@).0,
        r.1@.map_values(|n: usize| n as int) == prose_and_positions(text@, file@).1,
{
    let ls = lines_of(text);
    let ghost all = views(ls@);
    let is_diary = find_str(file, "Дневник").is_some();
    proof {
        reveal(find);
    }
    let mut runs: Vec<Prose> = Vec::new();
    let mut positions: Vec<usize> = Vec::new();
    let mut body: Vec<char> = Vec::new();
    let mut heading_now: Option<Vec<char>> = None;
    let mut inside_entry = false;
    let mut entry_depth: usize = 0;
    let mut fence = false;
    for i in 0..ls.len()
        invariant
            all == views(ls@),
            is_diary == contains(file@, "Дневник"@),
            ({
                let w = prose_walk(all.take(i as int), file@);
                &&& prose_views(runs@) == w.runs
                &&& positions@.map_values(|n: usize| n as int) == w.positions
                &&& body@ == w.body
                &&& opt_view(heading_now) == w.heading_now
                &&& inside_entry == w.inside_entry
                &&& entry_depth as int == w.entry_depth
                &&& fence == w.fence
            }),
            runs.len() <= i,
    {
        assert(all.take(i + 1).drop_last() =~= all.take(i as int));
        assert(all.take(i + 1).last() == ls@[i as int]@);
        let line = &ls[i];
        let tb = trimmed(&body);
        let pos: usize = runs.len() + if heading_now.is_some() || tb.len() > 0 {
            1
        } else {
            0
        };
        let ghost before_pos = positions@.map_values(|n: usize| n as int);
        positions.push(pos);
        assert(positions@.map_values(|n: usize| n as int) =~= before_pos.push(pos as int));
        let tl = trimmed(line);
        if !same_str(&tl, MARK) {
            let ts = trimmed_start(line);
            let was = fence;
            if starts_str(&ts, "```") {
                fence = !fence;
            }
            let fenced = was || fence;
            let h = if fenced {
                None
            } else {
                heading_of(line)
            };
            match h {
                Some((depth, head)) => {
                    let lv = leading_version_of(&head);
                    let starts = lv.is_some() || (is_diary && depth <= 2 && trailing_date_of(&head).is_some());
                    if starts {
                        if !inside_entry {
                            let hn = heading_now;
                            flush_exec(hn, &body, &mut runs, file);
                        }
                        inside_entry = true;
                        entry_depth = depth;
                        heading_now = None;
                        body = Vec::new();
                    } else if inside_entry && depth > entry_depth {
                    } else {
                        if !inside_entry {
                            let hn = heading_now;
                            flush_exec(hn, &body, &mut runs, file);
                        }
                        inside_entry = false;
                        heading_now = Some(line.clone());
                        body = Vec::new();
                    }
                },
                None => {
                    if !inside_entry {
                        append(&mut body, line);
                        body.push('\n');
                    }
                },
            }
        }
    }
    assert(all.take(ls.len() as int) =~= all);
    if !inside_entry {
        let hn = heading_now;
        flush_exec(hn, &body, &mut runs, file);
    }
    (runs, positions)
}

/// The prose of a file: the preamble, the headings that group stages into
/// blocks, and what was written under them.
pub fn parse_prose(text: &str, file: &str) -> (r: Vec<Prose>)
    ensures
        prose_views(r@) == prose(text@, file@),
{
    let t = chars_of(text);
    let f = chars_of(file);
    prose_and_positions_of(&t, &f).0
}


/// A stage: one version, its tasks, and whether the hub says it shipped.
#[derive(Debug, Clone, PartialEq, Default)]
pub struct Stage {
    pub version: String,
    pub title: Option<String>,
    pub shipped_on: Option<String>,
    pub tasks: Vec<Task>,
    /// Everything written under the heading before the list of tasks.
    pub notes: String,
    /// How deep its heading sat (`##` is 2).
    pub depth: usize,
    /// The prose written after the tasks, when there was any.
    pub notes_after: String,
    /// The heading exactly as it was written, after the `#` marks.
    pub heading: String,
    /// How many runs of prose stood before this stage in its file.
    pub after_prose: usize,
    /// How many blank lines stood between the stage and what followed it.
    pub gap_after: usize,
    /// Where the stage stood among the stages of its file: first is 0.
    pub rank: usize,
}

pub struct StageView {
    pub version: Seq<char>,
    pub title: Option<Seq<char>>,
    pub shipped_on: Option<Seq<char>>,
    pub tasks: Seq<TaskView>,
    pub notes: Seq<char>,
    pub depth: int,
    pub notes_after: Seq<char>,
    pub heading: Seq<char>,
    pub after_prose: int,
    pub gap_after: int,
    pub rank: int,
}

pub open spec fn task_views(v: Seq<Task>) -> Seq<TaskView> {
    v.map_values(|t: Task| t@)
}

impl View for Stage {
    type V = StageView;

    open spec fn view(&self) -> StageView {
        StageView {
            version: self.version@,
            title: opt_chars(self.title),
            shipped_on: opt_chars(self.shipped_on),
            tasks: task_views(self.tasks@),
            notes: self.notes@,
            depth: self.depth as int,
            notes_after: self.notes_after@,
            heading: self.heading@,
            after_prose: self.after_prose as int,
            gap_after: self.gap_after as int,
            rank: self.rank as int,
        }
    }
}

pub open spec fn stage_views(v: Seq<Stage>) -> Seq<StageView> {
    v.map_values(|s: Stage| s@)
}

/// Hands the collected prose to the stage it was written under: a stage
/// that has neither tasks nor opening prose is handed its opening, any
/// other its closing. Only when there is something to hand over.
pub open spec fn settle(stages: Seq<StageView>, notes: Seq<char>) -> Seq<StageView> {
    if trim(notes).len() > 0 && stages.len() > 0 {
        let last = stages.last();
        let settled = trim(notes);
        let gap = gap_after(notes);
        let last = if last.tasks.len() == 0 && last.notes.len() == 0 {
            StageView { notes: settled, gap_after: gap, ..last }
        } else {
            StageView { notes_after: settled, gap_after: gap, ..last }
        };
        stages.update(stages.len() - 1, last)
    } else {
        stages
    }
}

/// A stage opened by a version heading.
pub open spec fn new_stage(head: Seq<char>, version: Seq<char>, depth: int, after_prose: int, rank: int) -> StageView {
    let tail = head.skip(version.len() as int);
    StageView {
        version: match released_version(tail) {
            Some(v) => v,
            None => version,
        },
        title: stage_title(head, version),
        shipped_on: trailing_date(tail),
        tasks: Seq::empty(),
        notes: Seq::empty(),
        depth,
        notes_after: Seq::empty(),
        heading: head,
        after_prose,
        gap_after: 1,
        rank,
    }
}

/// One line of the walk over stages: the stages so far, the level of the
/// heading that opened the current one (0 outside any), and the prose
/// collected since the last hand-over.
pub open spec fn stages_step(st: (Seq<StageView>, int, Seq<char>), line: Seq<char>, run: int) -> (Seq<StageView>, int, Seq<char>) {
    let (stages, level, notes) = st;
    match heading(line) {
        Some(h) => match leading_version(h.1) {
            Some(version) => {
                let ss = settle(stages, notes);
                (ss.push(new_stage(h.1, version, h.0, run, ss.len() as int)), h.0, Seq::empty())
            },
            None => if h.0 <= level {
                (settle(stages, notes), 0, Seq::empty())
            } else if level > 0 {
                (stages, level, notes + line.push('\n'))
            } else {
                st
            },
        },
        None => if level == 0 {
            st
        } else {
            match parse_task(line) {
                Some(task) => if stages.len() > 0 {
                    let last = stages.last();
                    let opens = last.tasks.len() == 0 && trim(notes).len() > 0;
                    let last = if opens {
                        StageView { notes: trim(notes), ..last }
                    } else {
                        last
                    };
                    let notes = if opens {
                        Seq::empty()
                    } else {
                        notes
                    };
                    (stages.update(stages.len() - 1, StageView { tasks: last.tasks.push(task), ..last }), level, notes)
                } else {
                    st
                },
                None => (stages, level, notes + line.push('\n')),
            }
        },
    }
}

/// The walk over the first lines of a file, given how many runs of prose
/// stood before each.
pub open spec fn stages_walk(ls: Seq<Seq<char>>, runs: Seq<int>) -> (Seq<StageView>, int, Seq<char>)
    decreases ls.len(),
{
    if ls.len() == 0 {
        (Seq::empty(), 0, Seq::empty())
    } else {
        stages_step(stages_walk(ls.drop_last(), runs), ls.last(), runs[ls.len() - 1])
    }
}

/// The stages of a plan or a changelog, in the order they were written.
pub open spec fn stages(text: Seq<char>) -> Seq<StageView> {
    let st = stages_walk(lines(text), prose_positions(text));
    settle(st.0, st.2)
}

fn settle_exec(stages: &mut Vec<Stage>, notes: &mut Vec<char>)
    ensures
        stage_views(final(stages)@) == settle(stage_views(old(stages)@), old(notes)@),
        final(notes)@.len() == 0,
        final(stages)@.len() == old(stages)@.len(),
{
    let t = trimmed(notes);
    if t.len() > 0 && stages.len() > 0 {
        let ghost before = stage_views(stages@);
        let gap = gap_of(notes);
        let mut last = stages.pop().unwrap();
        if last.tasks.len() == 0 && last.notes.as_str().is_empty() {
            last.notes = text_of(&t);
        } else {
            last.notes_after = text_of(&t);
        }
        last.gap_after = gap;
        let ghost lv = last@;
        stages.push(last);
        assert(stage_views(stages@) =~= settle(before, notes@));
    }
    *notes = Vec::new();
}

pub fn parse_stages(text: &str) -> (r: Vec<Stage>)
    ensures
        stage_views(r@) == stages(text@),
{
    let chars = chars_of(text);
    let empty: Vec<char> = Vec::new();
    let (_, runs) = prose_and_positions_of(&chars, &empty);
    let ghost rv = runs@.map_values(|n: usize| n as int);
    let ls = lines_of(&chars);
    let ghost all = views(ls@);
    proof {
        lemma_positions_len(all, Seq::empty());
    }
    let mut stages: Vec<Stage> = Vec::new();
    let mut level: usize = 0;
    let mut notes: Vec<char> = Vec::new();
    for i in 0..ls.len()
        invariant
            all == views(ls@),
            rv == runs@.map_values(|n: usize| n as int),
            rv == prose_positions(text@),
            all == lines(text@),
            rv.len() == all.len(),
            (stage_views(stages@), level as int, notes@) == stages_walk(all.take(i as int), rv),
            level <= 6,
            stages@.len() <= i,
    {
        assert(all.take(i + 1).drop_last() =~= all.take(i as int));
        assert(all.take(i + 1).last() == ls@[i as int]@);
        let line = &ls[i];
        match heading_of(line) {
            Some((depth, head)) => {
                match leading_version_of(&head) {
                    Some(version) => {
                        settle_exec(&mut stages, &mut notes);
                        let tail = slice(&head, version.len(), head.len());
                        let v = match released_version_of(&tail) {
                            Some(v) => v,
                            None => version.clone(),
                        };
                        let title = match stage_title_of(&head, &version) {
                            Some(t) => Some(text_of(&t)),
                            None => None,
                        };
                        let shipped_on = match trailing_date_of(&tail) {
                            Some(d) => Some(text_of(&d)),
                            None => None,
                        };
                        let ghost before = stage_views(stages@);
                        let stage = Stage {
                            version: text_of(&v),
                            title,
                            shipped_on,
                            tasks: Vec::new(),
                            notes: String::new(),
                            depth,
                            notes_after: String::new(),
                            heading: text_of(&head),
                            after_prose: runs[i],
                            gap_after: 1,
                            rank: stages.len(),
                        };
                        let ghost sv = stage@;
                        assert(sv.tasks =~= Seq::<TaskView>::empty());
                        stages.push(stage);
                        assert(stage_views(stages@) =~= before.push(sv));
                        level = depth;
                    },
                    None => {
                        if depth <= level {
                            settle_exec(&mut stages, &mut notes);
                            level = 0;
                        } else if level > 0 {
                            append(&mut notes, line);
                            notes.push('\n');
                        }
                    },
                }
            },
            None => {
                if level > 0 {
                    match parse_task_of(line) {
                        Some(task) => {
                            if stages.len() > 0 {
                                let ghost before = stage_views(stages@);
                                let ghost n0 = notes@;
                                let mut last = stages.pop().unwrap();
                                let t = trimmed(&notes);
                                if last.tasks.len() == 0 && t.len() > 0 {
                                    last.notes = text_of(&t);
                                    notes = Vec::new();
                                }
                                let ghost tv = task@;
                                let ghost tasks0 = task_views(last.tasks@);
                                last.tasks.push(task);
                                assert(task_views(last.tasks@) =~= tasks0.push(tv));
                                stages.push(last);
                                assert(stage_views(stages@) =~= stages_step((before, level as int, n0), ls@[i as int]@, rv[i as int]).0);
                            }
                        },
                        None => {
                            append(&mut notes, line);
                            notes.push('\n');
                        },
                    }
                }
            },
        }
    }
    assert(all.take(ls.len() as int) =~= all);
    settle_exec(&mut stages, &mut notes);
    stages
}


/// A diary entry: one sitting as the hub records it.
#[derive(Debug, Clone, PartialEq)]
pub struct DiaryEntry {
    pub date: String,
    /// The heading exactly as it was written, after the `##`.
    pub heading: Option<String>,
    pub body: String,
    /// Whether a horizontal rule stood between this entry and the next.
    pub followed_by_rule: bool,
    /// How many blank lines stood after that rule, before the next entry.
    pub gap_after: usize,
    /// Where the entry stood among the entries of its diary: newest is 0.
    pub rank: usize,
}

pub struct DiaryEntryView {
    pub date: Seq<char>,
    pub heading: Option<Seq<char>>,
    pub body: Seq<char>,
    pub followed_by_rule: bool,
    pub gap_after: int,
    pub rank: int,
}

impl View for DiaryEntry {
    type V = DiaryEntryView;

    open spec fn view(&self) -> DiaryEntryView {
        DiaryEntryView {
            date: self.date@,
            heading: opt_chars(self.heading),
            body: self.body@,
            followed_by_rule: self.followed_by_rule,
            gap_after: self.gap_after as int,
            rank: self.rank as int,
        }
    }
}

pub open spec fn diary_views(v: Seq<DiaryEntry>) -> Seq<DiaryEntryView> {
    v.map_values(|e: DiaryEntry| e@)
}

/// The line endings in a text after a position, less one.
pub open spec fn endings_after(body: Seq<char>, at: int) -> int {
    let n = count_char(body.skip(at), '\n');
    if n > 0 {
        n - 1
    } else {
        0
    }
}

/// Hands a diary entry the lines written under it, and the separator that
/// followed them: a rule closing the body is a flag, not part of it.
pub open spec fn settle_entry(e: DiaryEntryView, body: Seq<char>) -> DiaryEntryView {
    let trimmed = trim(body);
    match strip_suffix(trimmed, "---"@) {
        Some(rest) => DiaryEntryView {
            body: trim_end(rest),
            followed_by_rule: true,
            gap_after: endings_after(
                body,
                match rfind(body, "---"@) {
                    Some(at) => at + 3,
                    None => body.len() as int,
                },
            ),
            ..e
        },
        None => DiaryEntryView { body: trimmed, gap_after: gap_after(body), ..e },
    }
}

pub open spec fn diary_step(st: (Seq<DiaryEntryView>, Seq<char>), line: Seq<char>) -> (Seq<DiaryEntryView>, Seq<char>) {
    let (entries, body) = st;
    let head = match heading(line) {
        Some(h) => h.1,
        None => Seq::empty(),
    };
    let date = match heading(line) {
        Some(h) => if h.0 <= 2 {
            trailing_date(h.1)
        } else {
            None
        },
        None => None,
    };
    match date {
        Some(d) => {
            let es = if entries.len() > 0 {
                entries.update(entries.len() - 1, settle_entry(entries.last(), body))
            } else {
                entries
            };
            let e = DiaryEntryView {
                heading: Some(head),
                date: d,
                body: Seq::empty(),
                followed_by_rule: false,
                gap_after: 1,
                rank: es.len() as int,
            };
            (es.push(e), Seq::empty())
        },
        None => if entries.len() > 0 {
            (entries, body + line.push('\n'))
        } else {
            st
        },
    }
}

pub open spec fn diary_walk(ls: Seq<Seq<char>>) -> (Seq<DiaryEntryView>, Seq<char>)
    decreases ls.len(),
{
    if ls.len() == 0 {
        (Seq::empty(), Seq::empty())
    } else {
        diary_step(diary_walk(ls.drop_last()), ls.last())
    }
}

/// The diary, newest entry first: `## 2026-09-05 · Title` and its prose.
pub open spec fn diary(text: Seq<char>) -> Seq<DiaryEntryView> {
    let (entries, body) = diary_walk(lines(text));
    if entries.len() > 0 {
        entries.update(entries.len() - 1, settle_entry(entries.last(), body))
    } else {
        entries
    }
}

fn settle_entry_exec(e: &mut DiaryEntry, body: &Vec<char>)
    ensures
        final(e)@ == settle_entry(old(e)@, body@),
{
    let t = trimmed(body);
    match stripped_suffix(&t, "---") {
        Some(rest) => {
            let b = trimmed_end(&rest);
            e.body = text_of(&b);
            e.followed_by_rule = true;
            let rule = lit("---");
            let at = match rfind_in(body, &rule) {
                Some(at) => {
                    proof {
                        reveal_strlit("---");
                    }
                    assert(at + 3 <= body@.len());
                    let m = body.len();
                    assert(at + 3 <= m);
                    at + 3
                },
                None => body.len(),
            };
            let after = slice(body, at, body.len());
            let n = count_of(&after, '\n');
            e.gap_after = if n > 0 {
                n - 1
            } else {
                0
            };
        },
        None => {
            e.body = text_of(&t);
            e.gap_after = gap_of(body);
        },
    }
}

fn settle_last_entry(entries: &mut Vec<DiaryEntry>, body: &Vec<char>)
    ensures
        diary_views(final(entries)@) == (if old(entries)@.len() > 0 {
            diary_views(old(entries)@).update(
                old(entries)@.len() - 1,
                settle_entry(diary_views(old(entries)@).last(), body@),
            )
        } else {
            diary_views(old(entries)@)
        }),
        final(entries)@.len() == old(entries)@.len(),
{
    if entries.len() > 0 {
        let ghost before = diary_views(entries@);
        let mut last = entries.pop().unwrap();
        settle_entry_exec(&mut last, body);
        let ghost lv = last@;
        entries.push(last);
        assert(diary_views(entries@) =~= before.update(before.len() - 1, lv));
    }
}

pub fn parse_diary(text: &str) -> (r: Vec<DiaryEntry>)
    ensures
        diary_views(r@) == diary(text@),
{
    let chars = chars_of(text);
    let ls = lines_of(&chars);
    let ghost all = views(ls@);
    let mut entries: Vec<DiaryEntry> = Vec::new();
    let mut body: Vec<char> = Vec::new();
    for i in 0..ls.len()
        invariant
            all == views(ls@),
            (diary_views(entries@), body@) == diary_walk(all.take(i as int)),
            entries@.len() <= i,
    {
        assert(all.take(i + 1).drop_last() =~= all.take(i as int));
        assert(all.take(i + 1).last() == ls@[i as int]@);
        let line = &ls[i];
        let h = heading_of(line);
        let date = match &h {
            Some((depth, head)) => if *depth <= 2 {
                trailing_date_of(head)
            } else {
                None
            },
            None => None,
        };
        match date {
            Some(d) => {
                settle_last_entry(&mut entries, &body);
                body = Vec::new();
                let head = match h {
                    Some((_, head)) => head,
                    None => Vec::new(),
                };
                let ghost before = diary_views(entries@);
                let e = DiaryEntry {
                    heading: Some(text_of(&head)),
                    date: text_of(&d),
                    body: String::new(),
                    followed_by_rule: false,
                    gap_after: 1,
                    rank: entries.len(),
                };
                let ghost ev = e@;
                entries.push(e);
                assert(diary_views(entries@) =~= before.push(ev));
            },
            None => {
                if entries.len() > 0 {
                    append(&mut body, line);
                    body.push('\n');
                }
            },
        }
    }
    assert(all.take(ls.len() as int) =~= all);
    settle_last_entry(&mut entries, &body);
    entries
}


/// What a hub yielded, plus what it could not.
#[derive(Debug, Default)]
pub struct Hub {
    pub open_stages: Vec<Stage>,
    pub closed_stages: Vec<Stage>,
    pub decisions: Vec<Decision>,
    pub questions: Vec<String>,
    pub diary: Vec<DiaryEntry>,
    pub prose: Vec<Prose>,
    pub state: Vec<StateLine>,
    pub warnings: Vec<String>,
}

pub struct HubView {
    pub open_stages: Seq<StageView>,
    pub closed_stages: Seq<StageView>,
    pub decisions: Seq<DecisionView>,
    pub questions: Seq<Seq<char>>,
    pub diary: Seq<DiaryEntryView>,
    pub prose: Seq<ProseView>,
    pub state: Seq<StateLineView>,
    pub warnings: Seq<Seq<char>>,
}

impl View for Hub {
    type V = HubView;

    open spec fn view(&self) -> HubView {
        HubView {
            open_stages: stage_views(self.open_stages@),
            closed_stages: stage_views(self.closed_stages@),
            decisions: decision_views(self.decisions@),
            questions: strings(self.questions@),
            diary: diary_views(self.diary@),
            prose: prose_views(self.prose@),
            state: state_views(self.state@),
            warnings: strings(self.warnings@),
        }
    }
}

/// The texts of the files a hub is read from, each `None` when the file
/// is not there.
pub struct HubFiles {
    pub plan: Option<String>,
    pub changelog: Option<String>,
    pub readme: Option<String>,
    pub decisions: Option<String>,
    pub diary: Option<String>,
}

pub const PLAN: &'static str = "План.md";
pub const CHANGELOG: &'static str = "Изменения.md";
pub const README: &'static str = "README.md";
pub const DECISIONS: &'static str = "Решения.md";
pub const DIARY: &'static str = "Дневник.md";

/// What is said about a file that is not there.
pub open spec fn missing(name: Seq<char>, dir: Seq<char>, file: Option<String>) -> Seq<Seq<char>> {
    match file {
        Some(_) => Seq::empty(),
        None => seq![name + " is missing from "@ + dir],
    }
}

/// The versions written up more than once, in the order their second
/// write-up was met.
pub open spec fn repeats(versions: Seq<Seq<char>>) -> Seq<Seq<char>>
    decreases versions.len(),
{
    if versions.len() == 0 {
        Seq::empty()
    } else {
        let said = repeats(versions.drop_last());
        let v = versions.last();
        if versions.drop_last().contains(v) && !said.contains(v) {
            said.push(v)
        } else {
            said
        }
    }
}

/// What is said about a version written up twice in one file.
pub open spec fn repeat_warning(file: Seq<char>, version: Seq<char>) -> Seq<char> {
    file + " writes up "@ + version
        + " more than once; the record keeps one entry per version, so an export writes one"@
}

pub open spec fn repeat_warnings(file: Seq<char>, stages: Seq<StageView>) -> Seq<Seq<char>> {
    repeats(stages.map_values(|s: StageView| s.version)).map_values(|v: Seq<char>| repeat_warning(file, v))
}

pub open spec fn text_or_empty(o: Option<String>) -> Seq<char> {
    match o {
        Some(s) => s@,
        None => Seq::empty(),
    }
}

pub open spec fn if_there<A>(o: Option<String>, s: Seq<A>) -> Seq<A> {
    match o {
        Some(_) => s,
        None => Seq::empty(),
    }
}

/// A hub read from its files.
pub open spec fn hub(dir: Seq<char>, files: HubFiles) -> HubView {
    let plan = text_or_empty(files.plan);
    let changelog = text_or_empty(files.changelog);
    let readme = text_or_empty(files.readme);
    let open_stages = if_there(files.plan, stages(plan));
    let closed_stages = if_there(files.changelog, stages(changelog));
    HubView {
        open_stages,
        closed_stages,
        decisions: if_there(files.decisions, decisions(text_or_empty(files.decisions))),
        questions: if_there(files.plan, questions(plan)),
        diary: if_there(files.diary, diary(text_or_empty(files.diary))),
        prose: if_there(files.plan, prose(plan, PLAN@)) + if_there(files.changelog, prose(changelog, CHANGELOG@))
            + if_there(files.readme, prose(readme, README@)) + if_there(
            files.diary,
            prose(text_or_empty(files.diary), DIARY@),
        ),
        state: if_there(files.readme, state(readme)),
        warnings: missing(PLAN@, dir, files.plan) + missing(CHANGELOG@, dir, files.changelog) + missing(
            README@,
            dir,
            files.readme,
        ) + repeat_warnings(PLAN@, open_stages) + repeat_warnings(CHANGELOG@, closed_stages) + missing(
            DECISIONS@,
            dir,
            files.decisions,
        ) + missing(DIARY@, dir, files.diary),
    }
}

fn say_missing(warnings: &mut Vec<String>, name: &str, dir: &str, file: &Option<String>)
    ensures
        strings(final(warnings)@) == strings(old(warnings)@) + missing(name@, dir@, *file),
{
    if file.is_none() {
        let mut w = chars_of(name);
        append_str(&mut w, " is missing from ");
        append_str(&mut w, dir);
        let ghost before = strings(warnings@);
        warnings.push(text_of(&w));
        assert(strings(warnings@) =~= before + seq![w@]);
    } else {
        assert(strings(warnings@) =~= strings(warnings@) + Seq::<Seq<char>>::empty());
    }
}

fn contains_text(list: &Vec<Vec<char>>, v: &Vec<char>) -> (r: bool)
    ensures
        r == views(list@).contains(v@),
{
    for i in 0..list.len()
        invariant
            forall|j: int| 0 <= j < i ==> views(list@)[j] != v@,
    {
        if same(&list[i], v) {
            assert(views(list@)[i as int] == v@);
            return true;
        }
    }
    false
}

/// Warns when one version is written up twice in the same file: the record
/// holds one row per version, so an export can only write it back once.
fn warn_about_repeats(warnings: &mut Vec<String>, file: &str, stages: &Vec<Stage>)
    ensures
        strings(final(warnings)@) == strings(old(warnings)@) + repeat_warnings(file@, stage_views(stages@)),
{
    let ghost versions = stage_views(stages@).map_values(|s: StageView| s.version);
    let mut seen: Vec<Vec<char>> = Vec::new();
    let mut said: Vec<Vec<char>> = Vec::new();
    for i in 0..stages.len()
        invariant
            versions == stage_views(stages@).map_values(|s: StageView| s.version),
            views(seen@) == versions.take(i as int),
            views(said@) == repeats(versions.take(i as int)),
    {
        let v = chars_of_string(&stages[i].version);
        assert(versions.take(i + 1).drop_last() =~= versions.take(i as int));
        assert(versions.take(i + 1).last() == v@);
        let a = contains_text(&seen, &v);
        let b = contains_text(&said, &v);
        if a && !b {
            let ghost before = views(said@);
            said.push(v.clone());
            assert(views(said@) =~= before.push(v@));
        }
        let ghost before = views(seen@);
        seen.push(v);
        assert(views(seen@) =~= before.push(versions[i as int]));
    }
    assert(versions.take(stages.len() as int) =~= versions);
    let ghost start = strings(warnings@);
    let ghost all = views(said@).map_values(|v: Seq<char>| repeat_warning(file@, v));
    for k in 0..said.len()
        invariant
            all == views(said@).map_values(|v: Seq<char>| repeat_warning(file@, v)),
            strings(warnings@) == start + all.take(k as int),
    {
        let mut w = chars_of(file);
        append_str(&mut w, " writes up ");
        append(&mut w, &said[k]);
        append_str(&mut w, " more than once; the record keeps one entry per version, so an export writes one");
        let ghost before = strings(warnings@);
        warnings.push(text_of(&w));
        assert(strings(warnings@) =~= before.push(w@));
        assert(all.take(k + 1) =~= all.take(k as int).push(all[k as int]));
    }
    assert(all.take(said.len() as int) =~= all);
}

fn extend_prose(prose: &mut Vec<Prose>, more: Vec<Prose>)
    ensures
        prose_views(final(prose)@) == prose_views(old(prose)@) + prose_views(more@),
{
    let ghost start = prose@;
    let mut more = more;
    let ghost m = more@;
    prose.append(&mut more);
    assert(prose_views(prose@) =~= prose_views(start) + prose_views(m));
}

/// Reads a hub from the texts of its files. A file that is not there is a
/// warning, not a failure; nothing that can be read is skipped.
pub fn read(dir: &str, files: &HubFiles) -> (r: Hub)
    ensures
        r@ == hub(dir@, *files),
{
    let mut warnings: Vec<String> = Vec::new();
    let mut prose: Vec<Prose> = Vec::new();
    let mut open_stages: Vec<Stage> = Vec::new();
    let mut closed_stages: Vec<Stage> = Vec::new();
    let mut questions: Vec<String> = Vec::new();
    let mut state: Vec<StateLine> = Vec::new();
    let mut decisions: Vec<Decision> = Vec::new();
    let mut diary: Vec<DiaryEntry> = Vec::new();
    say_missing(&mut warnings, PLAN, dir, &files.plan);
    match &files.plan {
        Some(text) => {
            questions = parse_questions(text.as_str());
            open_stages = parse_stages(text.as_str());
            let p = parse_prose(text.as_str(), PLAN);
            extend_prose(&mut prose, p);
        },
        None => {},
    }
    say_missing(&mut warnings, CHANGELOG, dir, &files.changelog);
    match &files.changelog {
        Some(text) => {
            closed_stages = parse_stages(text.as_str());
            let p = parse_prose(text.as_str(), CHANGELOG);
            extend_prose(&mut prose, p);
        },
        None => {},
    }
    say_missing(&mut warnings, README, dir, &files.readme);
    match &files.readme {
        Some(text) => {
            state = parse_state(text.as_str());
            let p = parse_prose(text.as_str(), README);
            extend_prose(&mut prose, p);
        },
        None => {},
    }
    warn_about_repeats(&mut warnings, PLAN, &open_stages);
    warn_about_repeats(&mut warnings, CHANGELOG, &closed_stages);
    say_missing(&mut warnings, DECISIONS, dir, &files.decisions);
    match &files.decisions {
        Some(text) => {
            decisions = parse_decisions(text.as_str());
        },
        None => {},
    }
    say_missing(&mut warnings, DIARY, dir, &files.diary);
    match &files.diary {
        Some(text) => {
            diary = parse_diary(text.as_str());
            let p = parse_prose(text.as_str(), DIARY);
            extend_prose(&mut prose, p);
        },
        None => {},
    }
    let r = Hub { open_stages, closed_stages, decisions, questions, diary, prose, state, warnings };
    let ghost want = hub(dir@, *files);
    assert(r@.prose =~= want.prose);
    assert(r@.warnings =~= want.warnings);
    assert(r@.open_stages =~= want.open_stages);
    assert(r@.closed_stages =~= want.closed_stages);
    assert(r@.decisions =~= want.decisions);
    assert(r@.questions =~= want.questions);
    assert(r@.diary =~= want.diary);
    assert(r@.state =~= want.state);
    r
}

proof fn lemma_question_walk(ls: Seq<Seq<char>>)
    ensures
        forall|i: int| 0 <= i < questions_state(ls).0.len() ==> #[trigger] questions_state(ls).0[i].len() > 0
            && questions_state(ls).0[i] != "(пусто)"@,
    decreases ls.len(),
{
    if ls.len() > 0 {
        lemma_question_walk(ls.drop_last());
        let prev = questions_state(ls.drop_last()).0;
        let cur = questions_state(ls).0;
        assert(cur.len() >= prev.len());
        assert forall|i: int| 0 <= i < cur.len() implies #[trigger] cur[i].len() > 0 && cur[i] != "(пусто)"@ by {
            if i < prev.len() {
                assert(cur[i] == prev[i]);
            }
        }
    }
}

/// No question read is empty, and the placeholder line is never one.
pub proof fn law_questions_are_questions(text: Seq<char>)
    ensures
        forall|i: int| 0 <= i < questions(text).len() ==> #[trigger] questions(text)[i].len() > 0 && questions(
            text,
        )[i] != "(пусто)"@,
{
    lemma_question_walk(lines(text));
}

proof fn lemma_stage_ranks(ls: Seq<Seq<char>>, runs: Seq<int>)
    ensures
        forall|i: int| 0 <= i < stages_walk(ls, runs).0.len() ==> #[trigger] stages_walk(ls, runs).0[i].rank == i,
    decreases ls.len(),
{
    if ls.len() > 0 {
        lemma_stage_ranks(ls.drop_last(), runs);
        let st = stages_walk(ls.drop_last(), runs);
        let ss = settle(st.0, st.2);
        assert(forall|i: int| 0 <= i < ss.len() ==> #[trigger] ss[i].rank == st.0[i].rank);
    }
}

/// Stages keep the order they were written in: each stage's rank is its
/// place among the stages of its file.
pub proof fn law_stages_keep_their_order(text: Seq<char>)
    ensures
        forall|i: int| 0 <= i < stages(text).len() ==> #[trigger] stages(text)[i].rank == i,
{
    let st = stages_walk(lines(text), prose_positions(text));
    lemma_stage_ranks(lines(text), prose_positions(text));
    let ss = settle(st.0, st.2);
    assert(forall|i: int| 0 <= i < ss.len() ==> #[trigger] ss[i].rank == st.0[i].rank);
}

proof fn lemma_diary_ranks(ls: Seq<Seq<char>>)
    ensures
        forall|i: int| 0 <= i < diary_walk(ls).0.len() ==> #[trigger] diary_walk(ls).0[i].rank == i,
    decreases ls.len(),
{
    if ls.len() > 0 {
        lemma_diary_ranks(ls.drop_last());
        let st = diary_walk(ls.drop_last());
        if st.0.len() > 0 {
            let es = st.0.update(st.0.len() - 1, settle_entry(st.0.last(), st.1));
            assert(forall|i: int| 0 <= i < es.len() ==> #[trigger] es[i].rank == st.0[i].rank);
        }
    }
}

/// Diary entries keep the place they had: each entry's rank is its place
/// in the diary.
pub proof fn law_diary_keeps_its_order(text: Seq<char>)
    ensures
        forall|i: int| 0 <= i < diary(text).len() ==> #[trigger] diary(text)[i].rank == i,
{
    lemma_diary_ranks(lines(text));
    let (entries, body) = diary_walk(lines(text));
    if entries.len() > 0 {
        let es = entries.update(entries.len() - 1, settle_entry(entries.last(), body));
        assert(forall|i: int| 0 <= i < es.len() ==> #[trigger] es[i].rank == entries[i].rank);
    }
}

proof fn lemma_prose_positions(ls: Seq<Seq<char>>, file: Seq<char>)
    ensures
        forall|i: int| 0 <= i < prose_walk(ls, file).runs.len() ==> #[trigger] prose_walk(ls, file).runs[i].position == i,
    decreases ls.len(),
{
    if ls.len() > 0 {
        lemma_prose_positions(ls.drop_last(), file);
    }
}

/// Runs of prose keep the place they had: each run's position is its place
/// among the runs of its file.
pub proof fn law_prose_keeps_its_order(text: Seq<char>, file: Seq<char>)
    ensures
        forall|i: int| 0 <= i < prose(text, file).len() ==> #[trigger] prose(text, file)[i].position == i,
{
    lemma_prose_positions(lines(text), file);
}

} // verus!
