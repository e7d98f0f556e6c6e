//! kasl, the time tracker of the line, as a neighbour on a machine: a
//! session tells it what the time is spent on. Running kasl is the
//! program's work; what is said to it and what its answer comes to is
//! decided here.
use vstd::prelude::*;
use crate::order::{compare_chars, text_order};
use crate::card::Card;
use crate::text::{
    append_str, chars_of, chars_of_string, lower_all, lower_text, same, split_class, strip_prefix, text_of, trim,
    trimmed, views, Class,
};

verus! {

/// What telling kasl came to.
#[derive(Debug, Clone, PartialEq, Eq)]
pub enum Told {
    /// kasl took it.
    Taken,
    /// No kasl for this record: scratch, or not installed.
    Absent,
    /// kasl ran and said no, with the first line it said.
    Refused(String),
}

/// What a session is about, in the words kasl shows in its report.
pub open spec fn task_text(project: Seq<char>, stage: Option<(Seq<char>, Option<Seq<char>>)>) -> Seq<char> {
    match stage {
        Some((version, Some(title))) => project + " "@ + version + " · "@ + title,
        Some((version, None)) => project + " "@ + version,
        None => project,
    }
}

pub fn task_name(project: &str, stage: Option<(&str, Option<&str>)>) -> (r: String)
    ensures
        r@ == task_text(
            project@,
            match stage {
                Some((v, Some(t))) => Some((v@, Some(t@))),
                Some((v, None)) => Some((v@, None)),
                None => None,
            },
        ),
{
    let mut out = chars_of(project);
    match stage {
        Some((version, title)) => {
            append_str(&mut out, " ");
            append_str(&mut out, version);
            match title {
                Some(t) => {
                    append_str(&mut out, " · ");
                    append_str(&mut out, t);
                },
                None => {},
            }
        },
        None => {},
    }
    text_of(&out)
}

/// The day of a moment kasl wrote, with a `T` or a space before the time.
pub open spec fn day_of_moment(moment: Seq<char>) -> Seq<char> {
    split_class(moment, Class::Either('T', ' '))[0]
}

pub fn day(moment: &str) -> (r: String)
    ensures
        r@ == day_of_moment(moment@),
{
    let s = chars_of(moment);
    let parts = crate::text::split_by(&s, Class::Either('T', ' '));
    assert(views(parts@)[0] == parts@[0]@);
    text_of(&parts[0])
}

/// What kasl's complaint comes to: its first line with anything in it,
/// without the `error:` kasl puts in front, or that kasl said no.
pub open spec fn complaint_line(stderr: Seq<char>) -> Seq<char> {
    let first = trim(crate::context::first_filled(crate::text::lines(stderr)));
    let line = if first.len() == 0 {
        "kasl said no"@
    } else {
        first
    };
    match strip_prefix(line, "error:"@) {
        Some(rest) => trim(rest),
        None => line,
    }
}

/// The refusal kasl's complaint amounts to.
pub fn complaint(stderr: &str) -> (r: Told)
    ensures
        r matches Told::Refused(t) && t@ == complaint_line(stderr@),
{
    let s = chars_of(stderr);
    let first = crate::owner::first_line_of(&s);
    let line = if first.len() == 0 {
        chars_of("kasl said no")
    } else {
        first
    };
    let out = match crate::text::stripped_prefix(&line, "error:") {
        Some(rest) => trimmed(&rest),
        None => line,
    };
    Told::Refused(text_of(&out))
}

/// A moment as kasl writes it, with a space between the day and the time,
/// spelt the way a clock's reading is: `T` in place of each space.
pub open spec fn spelt_with_t(s: Seq<char>) -> Seq<char> {
    s.map_values(|c: char| if c == ' ' { 'T' } else { c })
}

/// Whether an issue is asleep at `now`, the local clock's reading as
/// `2026-09-24T10:00:00`: snoozed until a later moment. The two are
/// compared as text, which for this spelling is the order of time.
pub fn asleep(snoozed_until: Option<&str>, now: &str) -> (r: bool)
    ensures
        r == (match snoozed_until {
            Some(u) => text_order(spelt_with_t(u@), now@) > 0,
            None => false,
        }),
{
    let until = match snoozed_until {
        Some(u) => u,
        None => return false,
    };
    let u = chars_of(until);
    let mut t: Vec<char> = Vec::new();
    let mut i: usize = 0;
    while i < u.len()
        invariant
            i <= u.len(),
            t@ == spelt_with_t(u@.take(i as int)),
        decreases u.len() - i,
    {
        let c = if u[i] == ' ' {
            'T'
        } else {
            u[i]
        };
        t.push(c);
        assert(spelt_with_t(u@.take(i + 1)) =~= spelt_with_t(u@.take(i as int)).push(c));
        i = i + 1;
    }
    assert(u@.take(u.len() as int) =~= u@);
    compare_chars(&t, &chars_of(now)) > 0
}


/// The names a card answers to in kasl's inbox: its key, then its aliases.
pub open spec fn card_names(card: Card) -> Seq<Seq<char>> {
    seq![card.key@] + card.aliases@.map_values(|a: String| a@)
}

/// Whether an issue's key is one of the card's names, ASCII letters
/// compared without their case.
pub open spec fn answers_to(card: Card, key: Seq<char>) -> bool {
    exists|j: int| 0 <= j < card_names(card).len() && #[trigger] lower_all(card_names(card)[j]) == lower_all(key)
}

/// The ticket a card is, when kasl's inbox has it: the first issue, in
/// kasl's order, whose key is the card's key or one of its aliases, told
/// by its place among the inbox's keys. An inbox that could not be read
/// is handed over empty: a card is shown the same without its ticket.
pub fn ticket_of(card: &Card, keys: &Vec<String>) -> (r: Option<usize>)
    ensures
        match r {
            Some(i) => i < keys.len() && answers_to(*card, keys@[i as int]@) && forall|k: int|
                0 <= k < i ==> !answers_to(*card, #[trigger] keys@[k]@),
            None => forall|k: int| 0 <= k < keys.len() ==> !answers_to(*card, #[trigger] keys@[k]@),
        },
{
    let mut names: Vec<Vec<char>> = Vec::new();
    names.push(lower_text(&chars_of_string(&card.key)));
    for a in 0..card.aliases.len()
        invariant
            names.len() == a + 1,
            forall|j: int| 0 <= j <= a ==> #[trigger] names@[j]@ == lower_all(card_names(*card)[j]),
    {
        names.push(lower_text(&chars_of_string(&card.aliases[a])));
    }
    assert(card_names(*card).len() == names.len());
    for i in 0..keys.len()
        invariant
            names.len() == card_names(*card).len(),
            forall|j: int| 0 <= j < names.len() ==> #[trigger] names@[j]@ == lower_all(card_names(*card)[j]),
            forall|k: int| 0 <= k < i ==> !answers_to(*card, #[trigger] keys@[k]@),
    {
        let key = lower_text(&chars_of_string(&keys[i]));
        let mut j: usize = 0;
        while j < names.len()
            invariant
                j <= names.len(),
                i < keys.len(),
                names.len() == card_names(*card).len(),
                forall|k: int| 0 <= k < i ==> !answers_to(*card, #[trigger] keys@[k]@),
                key@ == lower_all(keys@[i as int]@),
                forall|n: int| 0 <= n < names.len() ==> #[trigger] names@[n]@ == lower_all(card_names(*card)[n]),
                forall|n: int| 0 <= n < j ==> lower_all(card_names(*card)[n]) != lower_all(keys@[i as int]@),
            decreases names.len() - j,
        {
            if same(&names[j], &key) {
                assert(lower_all(card_names(*card)[j as int]) == lower_all(keys@[i as int]@));
                assert(answers_to(*card, keys@[i as int]@));
                return Some(i);
            }
            j += 1;
        }
    }
    None
}

} // verus!
