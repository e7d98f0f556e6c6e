//! The assistant's pen: what a call of one of the tools that write to the
//! record comes to - which project or card it writes against, the edit the
//! record takes, and what the assistant is told - or why it is refused.
//! Looking the names up is done over the record's projects and cards as
//! plain values; making the edit is the program's work.
use vstd::prelude::*;
use crate::mcp::{event_kind, event_kind_of, given, needed_text, no_such_tool, opt_view, record_reply, record_reply_text};
use crate::number::{parse_in, parsed};
use crate::text::{
    append_str, chars_of, chars_of_string, lit, lower_all, lower_text, opt_chars, same, same_str, text_of, trim, trimmed,
    upper_all, upper_text,
};

verus! {

/// A project as the pen looks it up: its id and name.
#[derive(Debug, Clone)]
pub struct ProjectRef {
    pub id: i64,
    pub name: String,
}

/// A card as the pen looks it up: its id, its key and its aliases.
#[derive(Debug, Clone)]
pub struct CardRef {
    pub id: i64,
    pub key: String,
    pub aliases: Vec<String>,
}

/// What the pen reads of the record: its projects, its cards newest first,
/// the desk the cards live under, and the day and moment of the call.
#[derive(Debug, Clone)]
pub struct PenRecord {
    pub projects: Vec<ProjectRef>,
    pub cards: Vec<CardRef>,
    pub desk: ProjectRef,
    pub today: String,
    pub now: String,
}

/// The arguments a writing tool can be given.
#[derive(Debug, Clone, Default)]
pub struct ToolArgs {
    pub project: Option<String>,
    pub task: Option<String>,
    pub text: Option<String>,
    pub principle: Option<String>,
    pub from: Option<String>,
}

/// An edit the record takes.
#[derive(Debug, Clone, PartialEq, Eq)]
pub enum RecordEdit {
    /// A line at the top of a project's state block, dated.
    StateLine { project: i64, day: String, text: String },
    /// An event written against a card, under the desk.
    CardEvent { project: i64, card: i64, kind: String, text: String, at: String },
    /// An event of a project, with the principle a decision stands on and
    /// the project a wish comes from.
    Event { project: i64, kind: String, text: String, at: String, principle: Option<String>, asker: Option<i64> },
}

pub struct ProjectView {
    pub id: i64,
    pub name: Seq<char>,
}

pub struct CardView {
    pub id: i64,
    pub key: Seq<char>,
    pub aliases: Seq<Seq<char>>,
}

pub open spec fn project_view(p: ProjectRef) -> ProjectView {
    ProjectView { id: p.id, name: p.name@ }
}

pub open spec fn card_view(c: CardRef) -> CardView {
    CardView { id: c.id, key: c.key@, aliases: c.aliases@.map_values(|a: String| a@) }
}

pub open spec fn projects_of(r: PenRecord) -> Seq<ProjectView> {
    r.projects@.map_values(|p: ProjectRef| project_view(p))
}

pub open spec fn cards_of(r: PenRecord) -> Seq<CardView> {
    r.cards@.map_values(|c: CardRef| card_view(c))
}

/// The first project of a name.
#[verifier::opaque]
pub open spec fn project_named(ps: Seq<ProjectView>, name: Seq<char>) -> Option<int> {
    if exists|i: int| 0 <= i < ps.len() && #[trigger] ps[i].name == name {
        Some(choose|i: int| 0 <= i < ps.len() && ps[i].name == name && forall|j: int| 0 <= j < i ==> #[trigger] ps[j].name != name)
    } else {
        None
    }
}

/// Whether a card is the one a reference names by id, by key with its
/// ASCII letters upper-cased, or by an alias with its ASCII letters
/// compared without their case.
pub open spec fn by_id(c: CardView, text: Seq<char>) -> bool {
    parsed(text, i64::MIN as int, i64::MAX as int) == Some(c.id as int)
}

pub open spec fn by_key(c: CardView, text: Seq<char>) -> bool {
    upper_all(c.key) == upper_all(text)
}

pub open spec fn by_alias(c: CardView, text: Seq<char>) -> bool {
    exists|j: int| 0 <= j < c.aliases.len() && #[trigger] lower_all(c.aliases[j]) == lower_all(text)
}

/// The first card that answers a test.
#[verifier::opaque]
pub open spec fn first_card(cs: Seq<CardView>, f: spec_fn(CardView) -> bool) -> Option<int> {
    if exists|i: int| 0 <= i < cs.len() && f(#[trigger] cs[i]) {
        Some(choose|i: int| 0 <= i < cs.len() && f(cs[i]) && forall|j: int| 0 <= j < i ==> !f(#[trigger] cs[j]))
    } else {
        None
    }
}

/// The card a reference names, trimmed: by id first, then by key, then by
/// alias.
pub open spec fn card_named(cs: Seq<CardView>, text: Seq<char>) -> Option<int> {
    let t = trim(text);
    match first_card(cs, |c: CardView| by_id(c, t)) {
        Some(i) => Some(i),
        None => match first_card(cs, |c: CardView| by_key(c, t)) {
            Some(i) => Some(i),
            None => first_card(cs, |c: CardView| by_alias(c, t)),
        },
    }
}

/// What a call of a writing tool comes to: the edit and the reply, or the
/// refusal.
pub enum PenOutcome {
    Edit(RecordEdit, String),
    Refused(String),
}

pub open spec fn no_card_text(t: Seq<char>) -> Seq<char> {
    "no card named '"@ + t + "'; `task_find` looks one up"@
}

pub open spec fn no_project_text(n: Seq<char>) -> Seq<char> {
    "no project named '"@ + n + "'; the projects are listed by `rigger project list`"@
}

pub open spec fn self_asking_text(n: Seq<char>) -> Seq<char> {
    n + " cannot be the neighbour asking itself for something"@
}

/// The card a call writes against: `task` trimmed, when it holds anything.
pub open spec fn card_arg(task: Option<Seq<char>>) -> Option<Seq<char>> {
    match task {
        Some(t) => if trim(t).len() > 0 {
            Some(trim(t))
        } else {
            None
        },
        None => None,
    }
}

/// An optional argument, trimmed, absent when it holds nothing.
pub open spec fn given_text(o: Option<Seq<char>>) -> Option<Seq<char>> {
    card_arg(o)
}

pub struct ArgsView {
    pub project: Option<Seq<char>>,
    pub task: Option<Seq<char>>,
    pub text: Option<Seq<char>>,
    pub principle: Option<Seq<char>>,
    pub from: Option<Seq<char>>,
}

pub open spec fn args_view(a: ToolArgs) -> ArgsView {
    ArgsView {
        project: opt_chars(a.project),
        task: opt_chars(a.task),
        text: opt_chars(a.text),
        principle: opt_chars(a.principle),
        from: opt_chars(a.from),
    }
}

/// What an edit is, as plain values: which of the three, the project, the
/// card or day, the kind, the text, the moment, the principle, the asker.
pub open spec fn edit_view(e: RecordEdit) -> (int, i64, Option<i64>, Seq<char>, Seq<char>, Seq<char>, Option<Seq<char>>, Option<i64>) {
    match e {
        RecordEdit::StateLine { project, day, text } => (0, project, None, ""@, text@, day@, None, None),
        RecordEdit::CardEvent { project, card, kind, text, at } => (1, project, Some(card), kind@, text@, at@, None, None),
        RecordEdit::Event { project, kind, text, at, principle, asker } => (
            2,
            project,
            None,
            kind@,
            text@,
            at@,
            opt_chars(principle),
            asker,
        ),
    }
}

/// What a call of a writing tool comes to, as plain values: the edit and
/// the reply, or the refusal.
pub open spec fn pen(name: Seq<char>, a: ArgsView, r: PenRecord) -> Result<
    ((int, i64, Option<i64>, Seq<char>, Seq<char>, Seq<char>, Option<Seq<char>>, Option<i64>), Seq<char>),
    Seq<char>,
> {
    let ps = projects_of(r);
    let cs = cards_of(r);
    match event_kind_of(name) {
        None => Err("rigger serves no tool named `"@ + name + "`"@),
        Some(kind) => {
            // The card first: a call naming one writes under the desk.
            let card: Result<Option<int>, Seq<char>> = match card_arg(a.task) {
                Some(t) => match card_named(cs, t) {
                    Some(i) => Ok(Some(i)),
                    None => Err(no_card_text(t)),
                },
                None => Ok(None),
            };
            match card {
                Err(m) => Err(m),
                Ok(card) => {
                    let project: Result<ProjectView, Seq<char>> = match card {
                        Some(_) => Ok(project_view(r.desk)),
                        None => match a.project {
                            None => Err("this tool needs a `project`, or a `task` to write against"@),
                            Some(n) => match project_named(ps, n) {
                                Some(i) => Ok(ps[i]),
                                None => Err(no_project_text(n)),
                            },
                        },
                    };
                    match project {
                        Err(m) => Err(m),
                        Ok(p) => match a.text {
                            None => Err("this tool needs a `text`"@),
                            Some(t0) => if trim(t0).len() == 0 {
                                Err("`text` is empty; a record with nothing in it helps nobody"@)
                            } else {
                                let text = trim(t0);
                                if kind == "state"@ {
                                    Ok(((0, p.id, None, ""@, text, r.today@, None, None), record_reply_text(kind, p.name, None, None, None)))
                                } else if card is Some {
                                    let c = cs[card->0];
                                    Ok((
                                        (1, p.id, Some(c.id), kind, text, r.now@, None, None),
                                        record_reply_text(kind, p.name, Some(c.key), None, None),
                                    ))
                                } else {
                                    let principle = if kind == "decision"@ {
                                        given_text(a.principle)
                                    } else {
                                        None
                                    };
                                    let asker: Result<Option<ProjectView>, Seq<char>> = if kind == "wish"@ {
                                        match given_text(a.from) {
                                            Some(n) => match project_named(ps, n) {
                                                Some(i) => if ps[i].id == p.id {
                                                    Err(self_asking_text(ps[i].name))
                                                } else {
                                                    Ok(Some(ps[i]))
                                                },
                                                None => Err(no_project_text(n)),
                                            },
                                            None => Ok(None),
                                        }
                                    } else {
                                        Ok(None)
                                    };
                                    match asker {
                                        Err(m) => Err(m),
                                        Ok(asker) => Ok((
                                            (
                                                2,
                                                p.id,
                                                None,
                                                kind,
                                                text,
                                                r.now@,
                                                principle,
                                                match asker {
                                                    Some(q) => Some(q.id),
                                                    None => None,
                                                },
                                            ),
                                            record_reply_text(
                                                kind,
                                                p.name,
                                                None,
                                                match asker {
                                                    Some(q) => Some(q.name),
                                                    None => None,
                                                },
                                                principle,
                                            ),
                                        )),
                                    }
                                }
                            },
                        },
                    }
                },
            }
        },
    }
}


proof fn lemma_first_card_is(cs: Seq<CardView>, f: spec_fn(CardView) -> bool, i: int)
    requires
        0 <= i < cs.len(),
        f(cs[i]),
        forall|j: int| 0 <= j < i ==> !f(#[trigger] cs[j]),
    ensures
        first_card(cs, f) == Some(i),
{
    reveal(first_card);
    let c = choose|c: int| 0 <= c < cs.len() && f(cs[c]) && forall|j: int| 0 <= j < c ==> !f(#[trigger] cs[j]);
    if c < i {
        assert(!f(cs[c]));
    }
    if i < c {
        assert(!f(cs[i]));
    }
}

proof fn lemma_first_card_none(cs: Seq<CardView>, f: spec_fn(CardView) -> bool)
    requires
        forall|j: int| 0 <= j < cs.len() ==> !f(#[trigger] cs[j]),
    ensures
        first_card(cs, f) is None,
{
    reveal(first_card);
}

proof fn lemma_project_named_is(ps: Seq<ProjectView>, name: Seq<char>, i: int)
    requires
        0 <= i < ps.len(),
        ps[i].name == name,
        forall|j: int| 0 <= j < i ==> #[trigger] ps[j].name != name,
    ensures
        project_named(ps, name) == Some(i),
{
    reveal(project_named);
    let c = choose|c: int| 0 <= c < ps.len() && ps[c].name == name && forall|j: int| 0 <= j < c ==> #[trigger] ps[j].name != name;
    if c < i {
        assert(ps[c].name != name);
    }
    if i < c {
        assert(ps[i].name != name);
    }
}

fn find_project(r: &PenRecord, name: &String) -> (k: Option<usize>)
    ensures
        k matches Some(i) ==> i < r.projects.len() && project_named(projects_of(*r), name@) == Some(i as int),
        k is None ==> project_named(projects_of(*r), name@) is None,
{
    let ghost ps = projects_of(*r);
    let n = chars_of_string(name);
    for i in 0..r.projects.len()
        invariant
            ps == projects_of(*r),
            n@ == name@,
            forall|j: int| 0 <= j < i ==> #[trigger] ps[j].name != name@,
    {
        assert(ps[i as int] == project_view(r.projects@[i as int]));
        if same(&chars_of_string(&r.projects[i].name), &n) {
            proof {
                lemma_project_named_is(ps, name@, i as int);
            }
            return Some(i);
        }
    }
    proof {
        reveal(project_named);
    }
    None
}

fn card_by_id(r: &PenRecord, t: &Vec<char>) -> (k: Option<usize>)
    ensures
        k matches Some(i) ==> i < r.cards.len() && first_card(cards_of(*r), |c: CardView| by_id(c, t@)) == Some(i as int),
        k is None ==> first_card(cards_of(*r), |c: CardView| by_id(c, t@)) is None,
{
    let ghost cs = cards_of(*r);
    let ghost f = |c: CardView| by_id(c, t@);
    let id = parse_in(t, i64::MIN, i64::MAX);
    for i in 0..r.cards.len()
        invariant
            cs == cards_of(*r),
            f == (|c: CardView| by_id(c, t@)),
            id matches Some(v) ==> parsed(t@, i64::MIN as int, i64::MAX as int) == Some(v as int),
            id is None ==> parsed(t@, i64::MIN as int, i64::MAX as int) is None,
            forall|j: int| 0 <= j < i ==> !f(#[trigger] cs[j]),
    {
        assert(cs[i as int] == card_view(r.cards@[i as int]));
        let hit = match id {
            Some(v) => v == r.cards[i].id,
            None => false,
        };
        if hit {
            proof {
                lemma_first_card_is(cs, f, i as int);
            }
            return Some(i);
        }
    }
    proof {
        lemma_first_card_none(cs, f);
    }
    None
}

fn card_by_key(r: &PenRecord, t: &Vec<char>) -> (k: Option<usize>)
    ensures
        k matches Some(i) ==> i < r.cards.len() && first_card(cards_of(*r), |c: CardView| by_key(c, t@)) == Some(i as int),
        k is None ==> first_card(cards_of(*r), |c: CardView| by_key(c, t@)) is None,
{
    let ghost cs = cards_of(*r);
    let ghost f = |c: CardView| by_key(c, t@);
    let up = upper_text(t);
    for i in 0..r.cards.len()
        invariant
            cs == cards_of(*r),
            f == (|c: CardView| by_key(c, t@)),
            up@ == upper_all(t@),
            forall|j: int| 0 <= j < i ==> !f(#[trigger] cs[j]),
    {
        assert(cs[i as int] == card_view(r.cards@[i as int]));
        if same(&upper_text(&chars_of_string(&r.cards[i].key)), &up) {
            proof {
                lemma_first_card_is(cs, f, i as int);
            }
            return Some(i);
        }
    }
    proof {
        lemma_first_card_none(cs, f);
    }
    None
}

fn answers_to_alias(c: &CardRef, low: &Vec<char>, Ghost(t): Ghost<Seq<char>>) -> (b: bool)
    requires
        low@ == lower_all(t),
    ensures
        b == by_alias(card_view(*c), t),
{
    let ghost v = card_view(*c);
    for j in 0..c.aliases.len()
        invariant
            v == card_view(*c),
            low@ == lower_all(t),
            forall|k: int| 0 <= k < j ==> #[trigger] lower_all(v.aliases[k]) != lower_all(t),
    {
        assert(v.aliases[j as int] == c.aliases@[j as int]@);
        if same(&lower_text(&chars_of_string(&c.aliases[j])), low) {
            assert(lower_all(v.aliases[j as int]) == lower_all(t));
            return true;
        }
    }
    false
}

fn card_by_alias(r: &PenRecord, t: &Vec<char>) -> (k: Option<usize>)
    ensures
        k matches Some(i) ==> i < r.cards.len() && first_card(cards_of(*r), |c: CardView| by_alias(c, t@)) == Some(i as int),
        k is None ==> first_card(cards_of(*r), |c: CardView| by_alias(c, t@)) is None,
{
    let ghost cs = cards_of(*r);
    let ghost f = |c: CardView| by_alias(c, t@);
    let low = lower_text(t);
    for i in 0..r.cards.len()
        invariant
            cs == cards_of(*r),
            f == (|c: CardView| by_alias(c, t@)),
            low@ == lower_all(t@),
            forall|j: int| 0 <= j < i ==> !f(#[trigger] cs[j]),
    {
        assert(cs[i as int] == card_view(r.cards@[i as int]));
        if answers_to_alias(&r.cards[i], &low, Ghost(t@)) {
            proof {
                lemma_first_card_is(cs, f, i as int);
            }
            return Some(i);
        }
    }
    proof {
        lemma_first_card_none(cs, f);
    }
    None
}

/// The card a reference names: by id, then by key, then by alias.
fn find_card(r: &PenRecord, text: &String) -> (k: Option<usize>)
    ensures
        k matches Some(i) ==> i < r.cards.len() && card_named(cards_of(*r), text@) == Some(i as int),
        k is None ==> card_named(cards_of(*r), text@) is None,
{
    let t = trimmed(&chars_of_string(text));
    match card_by_id(r, &t) {
        Some(i) => Some(i),
        None => match card_by_key(r, &t) {
            Some(i) => Some(i),
            None => card_by_alias(r, &t),
        },
    }
}


pub open spec fn outcome_view(o: PenOutcome) -> Result<
    ((int, i64, Option<i64>, Seq<char>, Seq<char>, Seq<char>, Option<Seq<char>>, Option<i64>), Seq<char>),
    Seq<char>,
> {
    match o {
        PenOutcome::Edit(e, reply) => Ok((edit_view(e), reply@)),
        PenOutcome::Refused(m) => Err(m@),
    }
}

fn as_str(o: &Option<String>) -> (r: Option<&str>)
    ensures
        opt_view(r) == opt_chars(*o),
{
    match o {
        Some(s) => Some(s.as_str()),
        None => None,
    }
}

fn no_card(t: &str) -> (r: String)
    ensures
        r@ == no_card_text(t@),
{
    let mut out = lit("no card named '");
    append_str(&mut out, t);
    append_str(&mut out, "'; `task_find` looks one up");
    text_of(&out)
}

fn no_project(n: &str) -> (r: String)
    ensures
        r@ == no_project_text(n@),
{
    let mut out = lit("no project named '");
    append_str(&mut out, n);
    append_str(&mut out, "'; the projects are listed by `rigger project list`");
    text_of(&out)
}

fn self_asking(n: &str) -> (r: String)
    ensures
        r@ == self_asking_text(n@),
{
    let mut out = chars_of(n);
    append_str(&mut out, " cannot be the neighbour asking itself for something");
    text_of(&out)
}

fn copy_text(s: &String) -> (r: String)
    ensures
        r@ == s@,
{
    text_of(&chars_of_string(s))
}

/// What a call of a writing tool comes to: the project or card it writes
/// against, the edit the record takes and the reply, or why it is refused.
pub fn pen_step(name: &str, args: &ToolArgs, record: &PenRecord) -> (r: PenOutcome)
    ensures
        outcome_view(r) == pen(name@, args_view(*args), *record),
{
    let ghost want = pen(name@, args_view(*args), *record);
    let ghost ps = projects_of(*record);
    let ghost cs = cards_of(*record);
    let kind = match event_kind(name) {
        Some(k) => k,
        None => {
            return PenOutcome::Refused(no_such_tool(name));
        },
    };
    let card: Option<usize> = match given(as_str(&args.task)) {
        Some(t) => match find_card(record, &t) {
            Some(i) => Some(i),
            None => {
                return PenOutcome::Refused(no_card(t.as_str()));
            },
        },
        None => None,
    };
    let project: (i64, String) = match card {
        Some(_) => (record.desk.id, copy_text(&record.desk.name)),
        None => match &args.project {
            None => {
                return PenOutcome::Refused(text_of(&lit("this tool needs a `project`, or a `task` to write against")));
            },
            Some(n) => match find_project(record, n) {
                Some(i) => {
                    assert(ps[i as int] == project_view(record.projects@[i as int]));
                    (record.projects[i].id, copy_text(&record.projects[i].name))
                },
                None => {
                    return PenOutcome::Refused(no_project(n.as_str()));
                },
            },
        },
    };
    let text = match needed_text(as_str(&args.text)) {
        Ok(t) => t,
        Err(m) => {
            return PenOutcome::Refused(text_of(&lit(m)));
        },
    };
    if same_str(&chars_of(kind), "state") {
        let reply = record_reply(kind, project.1.as_str(), None, None, None);
        return PenOutcome::Edit(RecordEdit::StateLine { project: project.0, day: copy_text(&record.today), text }, reply);
    }
    if let Some(i) = card {
        assert(cs[i as int] == card_view(record.cards@[i as int]));
        let c = &record.cards[i];
        let reply = record_reply(kind, project.1.as_str(), Some(c.key.as_str()), None, None);
        return PenOutcome::Edit(
            RecordEdit::CardEvent { project: project.0, card: c.id, kind: kind.to_string(), text, at: copy_text(&record.now) },
            reply,
        );
    }
    let k = chars_of(kind);
    let principle = if same_str(&k, "decision") {
        given(as_str(&args.principle))
    } else {
        None
    };
    let asker: Option<(i64, String)> = if same_str(&k, "wish") {
        match given(as_str(&args.from)) {
            Some(n) => match find_project(record, &n) {
                Some(i) => {
                    assert(ps[i as int] == project_view(record.projects@[i as int]));
                    if record.projects[i].id == project.0 {
                        return PenOutcome::Refused(self_asking(record.projects[i].name.as_str()));
                    }
                    Some((record.projects[i].id, copy_text(&record.projects[i].name)))
                },
                None => {
                    return PenOutcome::Refused(no_project(n.as_str()));
                },
            },
            None => None,
        }
    } else {
        None
    };
    let reply = record_reply(
        kind,
        project.1.as_str(),
        None,
        match &asker {
            Some(a) => Some(a.1.as_str()),
            None => None,
        },
        as_str(&principle),
    );
    PenOutcome::Edit(
        RecordEdit::Event {
            project: project.0,
            kind: kind.to_string(),
            text,
            at: copy_text(&record.now),
            principle,
            asker: match asker {
                Some(a) => Some(a.0),
                None => None,
            },
        },
        reply,
    )
}


/// What the pen writes is what it was given: an edit is made only for a
/// tool that records, with the text given, trimmed, and never with an
/// empty one; a card named by the call takes the event under the desk.
pub proof fn law_the_pen_writes_what_it_is_given(name: Seq<char>, a: ArgsView, r: PenRecord)
    ensures
        pen(name, a, r) matches Ok((e, reply)) ==> {
            &&& event_kind_of(name) is Some
            &&& a.text matches Some(t) && e.4 == trim(t) && e.4.len() > 0
            &&& (card_arg(a.task) is Some ==> e.1 == r.desk.id)
            &&& (e.0 == 2 ==> e.3 == event_kind_of(name)->0)
        },
{
}


/// The arguments a reading tool can be given; `task` is a text when it
/// names a card and a number when it names a task of the plan.
#[derive(Debug, Clone, Default)]
pub struct ReadArgs {
    pub project: Option<String>,
    pub task_text: Option<String>,
    pub task_id: Option<i64>,
    pub budget: Option<u64>,
    pub query: Option<String>,
    pub id: Option<i64>,
    pub answer: Option<String>,
    pub status: Option<String>,
    pub slug: Option<String>,
    pub body: Option<String>,
    pub kind: Option<String>,
    pub title: Option<String>,
    pub principle: Option<String>,
    pub from: Option<String>,
    pub to: Option<String>,
    pub note: Option<String>,
}

/// What a tool call asks of the record: what to read or change, against
/// which project, card or task, with which values; `Write` for the tools
/// the pen writes with.
#[derive(Debug, Clone, PartialEq, Eq)]
pub enum ReadRequest {
    Context { project: i64, budget: u64 },
    Plan { project: i64 },
    TaskFind { query: String },
    TaskContext { card: i64, budget: u64 },
    Resolve { project: i64, id: i64, answer: Option<String> },
    SetTaskStatus { project: i64, task: i64, status: String },
    DocShow { project: i64, slug: Option<String> },
    DocWrite { project: i64, slug: String, body: String, kind: Option<String>, title: Option<String> },
    CloseTask { project: i64, task: i64 },
    Principles,
    WhyPrinciple { principle: String },
    Link { from: String, to: String, kind: crate::link::Kind, note: Option<String> },
    Links { project: i64 },
    Write,
}

pub enum RequestView {
    Context(i64, u64),
    Plan(i64),
    TaskFind(Seq<char>),
    TaskContext(i64, u64),
    Resolve(i64, i64, Option<Seq<char>>),
    SetTaskStatus(i64, i64, Seq<char>),
    DocShow(i64, Option<Seq<char>>),
    DocWrite(i64, Seq<char>, Seq<char>, Option<Seq<char>>, Option<Seq<char>>),
    CloseTask(i64, i64),
    Principles,
    WhyPrinciple(Seq<char>),
    Link(Seq<char>, Seq<char>, crate::link::Kind, Option<Seq<char>>),
    Links(i64),
    Write,
}

pub open spec fn request_view(r: ReadRequest) -> RequestView {
    match r {
        ReadRequest::Context { project, budget } => RequestView::Context(project, budget),
        ReadRequest::Plan { project } => RequestView::Plan(project),
        ReadRequest::TaskFind { query } => RequestView::TaskFind(query@),
        ReadRequest::TaskContext { card, budget } => RequestView::TaskContext(card, budget),
        ReadRequest::Resolve { project, id, answer } => RequestView::Resolve(project, id, opt_chars(answer)),
        ReadRequest::SetTaskStatus { project, task, status } => RequestView::SetTaskStatus(project, task, status@),
        ReadRequest::DocShow { project, slug } => RequestView::DocShow(project, opt_chars(slug)),
        ReadRequest::DocWrite { project, slug, body, kind, title } => RequestView::DocWrite(
            project,
            slug@,
            body@,
            opt_chars(kind),
            opt_chars(title),
        ),
        ReadRequest::CloseTask { project, task } => RequestView::CloseTask(project, task),
        ReadRequest::Principles => RequestView::Principles,
        ReadRequest::WhyPrinciple { principle } => RequestView::WhyPrinciple(principle@),
        ReadRequest::Link { from, to, kind, note } => RequestView::Link(from@, to@, kind, opt_chars(note)),
        ReadRequest::Links { project } => RequestView::Links(project),
        ReadRequest::Write => RequestView::Write,
    }
}

/// The project a call is about: the desk when it names a card, else the
/// project it names.
pub open spec fn target(task: Option<Seq<char>>, project: Option<Seq<char>>, r: PenRecord) -> Result<i64, Seq<char>> {
    match card_arg(task) {
        Some(t) => match card_named(cards_of(r), t) {
            Some(_) => Ok(r.desk.id),
            None => Err(no_card_text(t)),
        },
        None => match project {
            None => Err("this tool needs a `project`, or a `task` to write against"@),
            Some(n) => match project_named(projects_of(r), n) {
                Some(i) => Ok(projects_of(r)[i].id),
                None => Err(no_project_text(n)),
            },
        },
    }
}

pub open spec fn or_budget(b: Option<u64>) -> u64 {
    match b {
        Some(x) => x,
        None => 3000,
    }
}

pub open spec fn task_id_needed() -> Seq<char> {
    "this tool needs a `task` id; `plan` lists them"@
}

pub open spec fn unknown_kind_text(t: Seq<char>) -> Seq<char> {
    "a link is a pair, a consumer or a donor; '"@ + t + "' is none of them"@
}

/// What a call of a tool asks of the record, or why it is refused before
/// the record is asked anything.
pub open spec fn requested(name: Seq<char>, a: ReadArgs, r: PenRecord) -> Result<RequestView, Seq<char>> {
    let tt = opt_chars(a.task_text);
    let pr = opt_chars(a.project);
    if name == "context"@ {
        match target(tt, pr, r) {
            Err(m) => Err(m),
            Ok(p) => Ok(RequestView::Context(p, or_budget(a.budget))),
        }
    } else if name == "plan"@ {
        match target(tt, pr, r) {
            Err(m) => Err(m),
            Ok(p) => Ok(RequestView::Plan(p)),
        }
    } else if name == "task_find"@ {
        match given_text(opt_chars(a.query)) {
            Some(q) => Ok(RequestView::TaskFind(q)),
            None => Err("this tool needs a `query`: the task as it was handed over"@),
        }
    } else if name == "task_context"@ {
        match card_arg(tt) {
            Some(t) => match card_named(cards_of(r), t) {
                Some(i) => Ok(RequestView::TaskContext(cards_of(r)[i].id, or_budget(a.budget))),
                None => Err(no_card_text(t)),
            },
            None => Err("this tool needs a `task`: a card's key, alias or id"@),
        }
    } else if name == "resolve"@ {
        match target(tt, pr, r) {
            Err(m) => Err(m),
            Ok(p) => match a.id {
                Some(id) => Ok(RequestView::Resolve(p, id, given_text(opt_chars(a.answer)))),
                None => Err("this tool needs an `id`; the packet lists them"@),
            },
        }
    } else if name == "set_task_status"@ {
        match target(tt, pr, r) {
            Err(m) => Err(m),
            Ok(p) => match a.task_id {
                None => Err(task_id_needed()),
                Some(t) => match a.status {
                    Some(st) => Ok(RequestView::SetTaskStatus(p, t, st@)),
                    None => Err("this tool needs a `status`: one of new, active, waiting-handoff, frozen, done"@),
                },
            },
        }
    } else if name == "doc_show"@ {
        match target(tt, pr, r) {
            Err(m) => Err(m),
            Ok(p) => Ok(RequestView::DocShow(p, opt_chars(a.slug))),
        }
    } else if name == "doc_write"@ {
        match target(tt, pr, r) {
            Err(m) => Err(m),
            Ok(p) => match a.slug {
                None => Err("this tool needs a `slug`; `doc_show` lists them"@),
                Some(sl) => match a.body {
                    None => Err("this tool needs a `body`: the whole text of the document"@),
                    Some(b) => if trim(b@).len() == 0 {
                        Err("the body is empty; a document is removed with `rigger doc remove`, not by emptying it"@)
                    } else {
                        Ok(RequestView::DocWrite(p, sl@, b@, opt_chars(a.kind), opt_chars(a.title)))
                    },
                },
            },
        }
    } else if name == "close_task"@ {
        match target(tt, pr, r) {
            Err(m) => Err(m),
            Ok(p) => match a.task_id {
                Some(t) => Ok(RequestView::CloseTask(p, t)),
                None => Err(task_id_needed()),
            },
        }
    } else if name == "principles"@ {
        Ok(RequestView::Principles)
    } else if name == "why_principle"@ {
        match a.principle {
            Some(pp) => Ok(RequestView::WhyPrinciple(pp@)),
            None => Err("this tool needs a `principle`; `principles` lists them"@),
        }
    } else if name == "link"@ {
        match a.from {
            None => Err("this tool needs `from`: a project, or `project@version`"@),
            Some(f) => match a.to {
                None => Err("this tool needs `to`: a project, or `project@version`"@),
                Some(t) => match a.kind {
                    Some(k) => match crate::link::kind_named(k@) {
                        Some(kind) => Ok(RequestView::Link(f@, t@, kind, given_text(opt_chars(a.note)))),
                        None => Err(unknown_kind_text(k@)),
                    },
                    None => Ok(RequestView::Link(f@, t@, crate::link::Kind::Pair, given_text(opt_chars(a.note)))),
                },
            },
        }
    } else if name == "links"@ {
        match target(tt, pr, r) {
            Err(m) => Err(m),
            Ok(p) => Ok(RequestView::Links(p)),
        }
    } else if event_kind_of(name) is Some {
        Ok(RequestView::Write)
    } else {
        Err("rigger serves no tool named `"@ + name + "`"@)
    }
}

pub open spec fn result_view(r: Result<ReadRequest, String>) -> Result<RequestView, Seq<char>> {
    match r {
        Ok(q) => Ok(request_view(q)),
        Err(m) => Err(m@),
    }
}

fn find_target(task: &Option<String>, project: &Option<String>, r: &PenRecord) -> (t: Result<i64, String>)
    ensures
        match t {
            Ok(p) => target(opt_chars(*task), opt_chars(*project), *r) == Ok::<i64, Seq<char>>(p),
            Err(m) => target(opt_chars(*task), opt_chars(*project), *r) == Err::<i64, Seq<char>>(m@),
        },
{
    let ghost ps = projects_of(*r);
    match given(as_str(task)) {
        Some(t) => match find_card(r, &t) {
            Some(_) => Ok(r.desk.id),
            None => Err(no_card(t.as_str())),
        },
        None => match project {
            None => Err(text_of(&lit("this tool needs a `project`, or a `task` to write against"))),
            Some(n) => match find_project(r, n) {
                Some(i) => {
                    assert(ps[i as int] == project_view(r.projects@[i as int]));
                    Ok(r.projects[i].id)
                },
                None => Err(no_project(n.as_str())),
            },
        },
    }
}

fn copy_opt(s: &Option<String>) -> (r: Option<String>)
    ensures
        opt_chars(r) == opt_chars(*s),
{
    match s {
        Some(t) => Some(copy_text(t)),
        None => None,
    }
}

fn refuse(m: &str) -> (r: Result<ReadRequest, String>)
    ensures
        result_view(r) == Err::<RequestView, Seq<char>>(m@),
{
    Err(text_of(&lit(m)))
}

/// What a call of a tool asks of the record - which project, card or task,
/// with which values - or why it is refused before the record is asked
/// anything; the writing tools are the pen's.
pub fn read_request(name: &str, a: &ReadArgs, r: &PenRecord) -> (q: Result<ReadRequest, String>)
    ensures
        result_view(q) == requested(name@, *a, *r),
{
    let n = chars_of(name);
    let budget: u64 = match a.budget {
        Some(b) => b,
        None => 3000,
    };
    if same_str(&n, "context") {
        match find_target(&a.task_text, &a.project, r) {
            Ok(p) => Ok(ReadRequest::Context { project: p, budget }),
            Err(m) => Err(m),
        }
    } else if same_str(&n, "plan") {
        match find_target(&a.task_text, &a.project, r) {
            Ok(p) => Ok(ReadRequest::Plan { project: p }),
            Err(m) => Err(m),
        }
    } else if same_str(&n, "task_find") {
        match given(as_str(&a.query)) {
            Some(q) => Ok(ReadRequest::TaskFind { query: q }),
            None => refuse("this tool needs a `query`: the task as it was handed over"),
        }
    } else if same_str(&n, "task_context") {
        match given(as_str(&a.task_text)) {
            Some(t) => match find_card(r, &t) {
                Some(i) => {
                    assert(cards_of(*r)[i as int] == card_view(r.cards@[i as int]));
                    Ok(ReadRequest::TaskContext { card: r.cards[i].id, budget })
                },
                None => Err(no_card(t.as_str())),
            },
            None => refuse("this tool needs a `task`: a card's key, alias or id"),
        }
    } else if same_str(&n, "resolve") {
        match find_target(&a.task_text, &a.project, r) {
            Err(m) => Err(m),
            Ok(p) => match a.id {
                Some(id) => Ok(ReadRequest::Resolve { project: p, id, answer: given(as_str(&a.answer)) }),
                None => refuse("this tool needs an `id`; the packet lists them"),
            },
        }
    } else if same_str(&n, "set_task_status") {
        match find_target(&a.task_text, &a.project, r) {
            Err(m) => Err(m),
            Ok(p) => match a.task_id {
                None => refuse("this tool needs a `task` id; `plan` lists them"),
                Some(t) => match &a.status {
                    Some(st) => Ok(ReadRequest::SetTaskStatus { project: p, task: t, status: copy_text(st) }),
                    None => refuse("this tool needs a `status`: one of new, active, waiting-handoff, frozen, done"),
                },
            },
        }
    } else if same_str(&n, "doc_show") {
        match find_target(&a.task_text, &a.project, r) {
            Err(m) => Err(m),
            Ok(p) => Ok(ReadRequest::DocShow { project: p, slug: copy_opt(&a.slug) }),
        }
    } else if same_str(&n, "doc_write") {
        match find_target(&a.task_text, &a.project, r) {
            Err(m) => Err(m),
            Ok(p) => match &a.slug {
                None => refuse("this tool needs a `slug`; `doc_show` lists them"),
                Some(sl) => match &a.body {
                    None => refuse("this tool needs a `body`: the whole text of the document"),
                    Some(b) => if trimmed(&chars_of_string(b)).len() == 0 {
                        refuse("the body is empty; a document is removed with `rigger doc remove`, not by emptying it")
                    } else {
                        Ok(
                            ReadRequest::DocWrite {
                                project: p,
                                slug: copy_text(sl),
                                body: copy_text(b),
                                kind: copy_opt(&a.kind),
                                title: copy_opt(&a.title),
                            },
                        )
                    },
                },
            },
        }
    } else if same_str(&n, "close_task") {
        match find_target(&a.task_text, &a.project, r) {
            Err(m) => Err(m),
            Ok(p) => match a.task_id {
                Some(t) => Ok(ReadRequest::CloseTask { project: p, task: t }),
                None => refuse("this tool needs a `task` id; `plan` lists them"),
            },
        }
    } else if same_str(&n, "principles") {
        Ok(ReadRequest::Principles)
    } else if same_str(&n, "why_principle") {
        match &a.principle {
            Some(pp) => Ok(ReadRequest::WhyPrinciple { principle: copy_text(pp) }),
            None => refuse("this tool needs a `principle`; `principles` lists them"),
        }
    } else if same_str(&n, "link") {
        match &a.from {
            None => refuse("this tool needs `from`: a project, or `project@version`"),
            Some(f) => match &a.to {
                None => refuse("this tool needs `to`: a project, or `project@version`"),
                Some(t) => {
                    let kind = match &a.kind {
                        Some(k) => match crate::link::Kind::parse(k.as_str()) {
                            Some(kind) => kind,
                            None => {
                                let mut m = lit("a link is a pair, a consumer or a donor; '");
                                append_str(&mut m, k.as_str());
                                append_str(&mut m, "' is none of them");
                                return Err(text_of(&m));
                            },
                        },
                        None => crate::link::Kind::Pair,
                    };
                    Ok(ReadRequest::Link { from: copy_text(f), to: copy_text(t), kind, note: given(as_str(&a.note)) })
                },
            },
        }
    } else if same_str(&n, "links") {
        match find_target(&a.task_text, &a.project, r) {
            Ok(p) => Ok(ReadRequest::Links { project: p }),
            Err(m) => Err(m),
        }
    } else if event_kind(name).is_some() {
        Ok(ReadRequest::Write)
    } else {
        Err(no_such_tool(name))
    }
}

} // verus!
