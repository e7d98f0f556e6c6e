//! A questionnaire the owner answered, read into the record: a fork becomes
//! a decision naming what it was decided against, an idea taken a wish, an
//! idea left a decision. Reading the file is the program's work.
use vstd::prelude::*;
use crate::text::{all_in, append, append_str, chars_of_string, joined, split_class, strings, text_of, trim, trimmed, views, Class};

verus! {

/// A questionnaire, as the page that produced it writes one out.
#[derive(Debug)]
pub struct Answers {
    /// What the page called itself, for the decision to cite.
    pub questionnaire: Option<String>,
    /// The day it was answered, `2026-09-11`.
    pub answered: Option<String>,
    pub forks: Vec<Fork>,
    pub ideas: Vec<Idea>,
}

/// A choice between options, with one of them taken.
#[derive(Debug)]
pub struct Fork {
    /// What the fork was about.
    pub question: String,
    /// The option the owner took.
    pub chosen: String,
    /// The options it was taken over.
    pub against: Vec<String>,
    /// Why, in the owner's words or the page's.
    pub why: Option<String>,
}

/// An idea offered, taken or not.
#[derive(Debug)]
pub struct Idea {
    pub idea: String,
    /// Whether the owner ticked it.
    pub taken: bool,
    pub why: Option<String>,
}

/// An event the answers turn into.
pub struct Entry {
    pub kind: &'static str,
    pub body: String,
}

/// What the questionnaire is called in the text of an event.
pub open spec fn cite_text(name: Option<Seq<char>>, day: Option<Seq<char>>) -> Seq<char> {
    match (name, day) {
        (Some(n), Some(d)) => n + ", "@ + d,
        (Some(n), None) => n,
        (None, Some(d)) => "questionnaire of "@ + d,
        (None, None) => "a questionnaire"@,
    }
}

pub open spec fn opt_text(o: Option<String>) -> Option<Seq<char>> {
    match o {
        Some(s) => Some(s@),
        None => None,
    }
}

/// A reason, trimmed, when there is anything in it.
pub open spec fn reason(o: Option<String>) -> Option<Seq<char>> {
    match o {
        Some(s) => if trim(s@).len() > 0 {
            Some(trim(s@))
        } else {
            None
        },
        None => None,
    }
}

/// The options a fork was taken over, trimmed, the empty ones left out.
pub open spec fn options(ts: Seq<Seq<char>>) -> Seq<Seq<char>>
    decreases ts.len(),
{
    if ts.len() == 0 {
        Seq::empty()
    } else if trim(ts.last()).len() > 0 {
        options(ts.drop_last()).push(trim(ts.last()))
    } else {
        options(ts.drop_last())
    }
}

/// A fork as a decision: what was chosen, what it was chosen over, why,
/// and when.
pub open spec fn fork_text(f: Fork, cite: Seq<char>) -> Seq<char> {
    let against = options(strings(f.against@));
    trim(f.question@) + ": "@ + trim(f.chosen@) + (if against.len() > 0 {
        "\n\nRather than: "@ + joined(against, "; "@)
    } else {
        Seq::empty()
    }) + match reason(f.why) {
        Some(w) => "\n\n"@ + w,
        None => Seq::empty(),
    } + "\n\nAnswered on "@ + cite + "."@
}

/// An idea as a wish when taken, as a decision not to when not.
pub open spec fn idea_text(i: Idea, cite: Seq<char>) -> Seq<char> {
    let text = trim(i.idea@);
    let why = match reason(i.why) {
        Some(w) => "\n\n"@ + w,
        None => Seq::empty(),
    };
    if i.taken {
        text + why + "\n\nTaken on "@ + cite + "."@
    } else {
        "Not taking: "@ + text + why + "\n\nConsidered on "@ + cite + "."@
    }
}

pub open spec fn fork_entries(fs: Seq<Fork>, cite: Seq<char>) -> Seq<(Seq<char>, Seq<char>)>
    decreases fs.len(),
{
    if fs.len() == 0 {
        Seq::empty()
    } else {
        fork_entries(fs.drop_last(), cite).push(("decision"@, fork_text(fs.last(), cite)))
    }
}

pub open spec fn idea_entries(is: Seq<Idea>, cite: Seq<char>) -> Seq<(Seq<char>, Seq<char>)>
    decreases is.len(),
{
    if is.len() == 0 {
        Seq::empty()
    } else if trim(is.last().idea@).len() == 0 {
        idea_entries(is.drop_last(), cite)
    } else {
        idea_entries(is.drop_last(), cite).push(
            (if is.last().taken {
                "wish"@
            } else {
                "decision"@
            }, idea_text(is.last(), cite)),
        )
    }
}

pub open spec fn entry_views(es: Seq<Entry>) -> Seq<(Seq<char>, Seq<char>)> {
    es.map_values(|e: Entry| (e.kind@, e.body@))
}

/// A day as rigger writes one: four digits, two, two, with dashes.
pub open spec fn plain_day(d: Seq<char>) -> bool {
    let parts = split_class(d, Class::Is('-'));
    parts.len() == 3 && parts[0].len() == 4 && parts[1].len() == 2 && parts[2].len() == 2 && all_in(parts[0], Class::Digit)
        && all_in(parts[1], Class::Digit) && all_in(parts[2], Class::Digit)
}

fn reason_of(o: &Option<String>) -> (r: Option<Vec<char>>)
    ensures
        match reason(*o) {
            Some(w) => r matches Some(v) && v@ == w,
            None => r is None,
        },
{
    match o {
        Some(s) => {
            let t = trimmed(&chars_of_string(s));
            if t.len() > 0 {
                Some(t)
            } else {
                None
            }
        },
        None => None,
    }
}

fn entry_views_push(es: &mut Vec<Entry>, kind: &'static str, body: &Vec<char>)
    ensures
        entry_views(final(es)@) == entry_views(old(es)@).push((kind@, body@)),
{
    let ghost before = entry_views(es@);
    es.push(Entry { kind, body: text_of(body) });
    assert(entry_views(es@) =~= before.push((kind@, body@)));
}

impl Answers {
    fn cite(&self) -> (r: Vec<char>)
        ensures
            r@ == cite_text(opt_text(self.questionnaire), opt_text(self.answered)),
    {
        let mut out: Vec<char> = Vec::new();
        match (&self.questionnaire, &self.answered) {
            (Some(name), Some(day)) => {
                append(&mut out, &chars_of_string(name));
                append_str(&mut out, ", ");
                append(&mut out, &chars_of_string(day));
            },
            (Some(name), None) => append(&mut out, &chars_of_string(name)),
            (None, Some(day)) => {
                append_str(&mut out, "questionnaire of ");
                append(&mut out, &chars_of_string(day));
            },
            (None, None) => append_str(&mut out, "a questionnaire"),
        }
        out
    }

    /// The events these answers become, in the order they are recorded:
    /// the forks, then the ideas that say something.
    pub fn entries(&self) -> (r: Vec<Entry>)
        ensures
            ({
                let cite = cite_text(opt_text(self.questionnaire), opt_text(self.answered));
                entry_views(r@) == fork_entries(self.forks@, cite) + idea_entries(self.ideas@, cite)
            }),
    {
        let cite = self.cite();
        let mut out: Vec<Entry> = Vec::new();
        for i in 0..self.forks.len()
            invariant
                entry_views(out@) == fork_entries(self.forks@.take(i as int), cite@),
        {
            assert(self.forks@.take(i + 1).drop_last() =~= self.forks@.take(i as int));
            let f = &self.forks[i];
            let mut body = trimmed(&chars_of_string(&f.question));
            append_str(&mut body, ": ");
            append(&mut body, &trimmed(&chars_of_string(&f.chosen)));
            let mut against: Vec<Vec<char>> = Vec::new();
            let ghost al = strings(f.against@);
            for j in 0..f.against.len()
                invariant
                    al == strings(f.against@),
                    views(against@) == options(al.take(j as int)),
            {
                assert(al.take(j + 1).drop_last() =~= al.take(j as int));
                assert(al[j as int] == f.against@[j as int]@);
                let t = trimmed(&chars_of_string(&f.against[j]));
                if t.len() > 0 {
                    let ghost before = views(against@);
                    against.push(t);
                    assert(views(against@) =~= before.push(trim(al[j as int])));
                }
            }
            assert(al.take(f.against.len() as int) =~= al);
            if against.len() > 0 {
                append_str(&mut body, "\n\nRather than: ");
                append(&mut body, &crate::text::join_with(&against, "; "));
            }
            match reason_of(&f.why) {
                Some(w) => {
                    append_str(&mut body, "\n\n");
                    append(&mut body, &w);
                },
                None => {},
            }
            append_str(&mut body, "\n\nAnswered on ");
            append(&mut body, &cite);
            append_str(&mut body, ".");
            proof {
                reveal_strlit("");
            }
            assert(body@ =~= fork_text(*f, cite@));
            entry_views_push(&mut out, "decision", &body);
        }
        assert(self.forks@.take(self.forks.len() as int) =~= self.forks@);
        let ghost head = entry_views(out@);
        for i in 0..self.ideas.len()
            invariant
                entry_views(out@) == head + idea_entries(self.ideas@.take(i as int), cite@),
        {
            assert(self.ideas@.take(i + 1).drop_last() =~= self.ideas@.take(i as int));
            let idea = &self.ideas[i];
            let text = trimmed(&chars_of_string(&idea.idea));
            if text.len() > 0 {
                let mut why: Vec<char> = Vec::new();
                match reason_of(&idea.why) {
                    Some(w) => {
                        append_str(&mut why, "\n\n");
                        append(&mut why, &w);
                    },
                    None => {},
                }
                let mut body: Vec<char> = Vec::new();
                if idea.taken {
                    append(&mut body, &text);
                    append(&mut body, &why);
                    append_str(&mut body, "\n\nTaken on ");
                } else {
                    append_str(&mut body, "Not taking: ");
                    append(&mut body, &text);
                    append(&mut body, &why);
                    append_str(&mut body, "\n\nConsidered on ");
                }
                append(&mut body, &cite);
                append_str(&mut body, ".");
                proof {
                    reveal_strlit("");
                }
                assert(body@ =~= idea_text(*idea, cite@));
                let kind: &'static str = if idea.taken {
                    "wish"
                } else {
                    "decision"
                };
                entry_views_push(&mut out, kind, &body);
            }
        }
        assert(self.ideas@.take(self.ideas.len() as int) =~= self.ideas@);
        out
    }

    /// The moment the events are dated by: the day it was answered, at
    /// midnight, when the page gives a plain day.
    pub fn at(&self) -> (r: Option<String>)
        ensures
            match self.answered {
                Some(a) => if plain_day(trim(a@)) {
                    r matches Some(t) && t@ == trim(a@) + "T00:00:00Z"@
                } else {
                    r is None
                },
                None => r is None,
            },
    {
        match &self.answered {
            Some(a) => {
                let day = trimmed(&chars_of_string(a));
                let parts = crate::text::split_by(&day, Class::Is('-'));
                let ok = parts.len() == 3 && parts[0].len() == 4 && parts[1].len() == 2 && parts[2].len() == 2
                    && crate::text::all_of(&parts[0], Class::Digit) && crate::text::all_of(&parts[1], Class::Digit)
                    && crate::text::all_of(&parts[2], Class::Digit);
                proof {
                    if parts.len() == 3 {
                        assert(views(parts@)[0] == parts@[0]@ && views(parts@)[1] == parts@[1]@ && views(parts@)[2]
                            == parts@[2]@);
                    }
                }
                if ok {
                    let mut out = day;
                    append_str(&mut out, "T00:00:00Z");
                    Some(text_of(&out))
                } else {
                    None
                }
            },
            None => None,
        }
    }
}

} // verus!
