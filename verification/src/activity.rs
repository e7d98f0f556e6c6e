//! A card's activity, read from git: the branches and commits that carry a
//! card's name. Reading git is the program's work; which names a card is
//! looked for by, and whether a text names one, is decided here.
use vstd::prelude::*;
use crate::card::Card;
use crate::moment::{in_time, moment_seconds, now_seconds, timestamp_seconds};
use crate::text::{
    any_in, chars_of, chars_of_string, is_alnum, occurs_at, strings, text_of, trim, trimmed, upper_all, upper_text,
    views, Class,
};

verus! {

/// A branch whose name carries a card's name.
#[derive(Debug, Clone)]
pub struct BranchSeen {
    pub task_id: i64,
    /// The branch as it is checked out, without the remote's name in front.
    pub name: String,
    /// The remote the branch is on, when there is no local branch of that
    /// name.
    pub remote: Option<String>,
    pub tip: String,
    /// The moment of the tip commit, in UTC.
    pub tip_at: String,
    pub subject: String,
}

/// A commit whose message carries a card's name.
#[derive(Debug, Clone)]
pub struct CommitSeen {
    pub task_id: i64,
    pub hash: String,
    pub at: String,
    pub subject: String,
}

#[derive(Debug, Default)]
pub struct Seen {
    pub branches: Vec<BranchSeen>,
    pub commits: Vec<CommitSeen>,
}

/// An alias that is an id rather than words: no white space, a letter, a
/// digit, and a dash or an underscore.
pub open spec fn is_an_id(a: Seq<char>) -> bool {
    !any_in(a, Class::Space) && any_in(a, Class::Alpha) && any_in(a, Class::Digit) && any_in(
        a,
        Class::Either('-', '_'),
    )
}

/// The ids among a card's aliases, upper-cased, each once, after those
/// already found.
pub open spec fn alias_needles(found: Seq<Seq<char>>, aliases: Seq<Seq<char>>) -> Seq<Seq<char>>
    decreases aliases.len(),
{
    if aliases.len() == 0 {
        found
    } else {
        let before = alias_needles(found, aliases.drop_last());
        let a = trim(aliases.last());
        if is_an_id(a) && !before.contains(upper_all(a)) {
            before.push(upper_all(a))
        } else {
            before
        }
    }
}

/// The names a card is looked for by: its key, and the aliases that are
/// ids rather than words.
pub fn needles(card: &Card) -> (r: Vec<String>)
    ensures
        strings(r@) == alias_needles(seq![upper_all(card.key@)], strings(card.aliases@)),
{
    let mut out: Vec<Vec<char>> = Vec::new();
    out.push(upper_text(&chars_of_string(&card.key)));
    let ghost al = strings(card.aliases@);
    for i in 0..card.aliases.len()
        invariant
            al == strings(card.aliases@),
            views(out@) == alias_needles(seq![upper_all(card.key@)], al.take(i as int)),
    {
        assert(al.take(i + 1).drop_last() =~= al.take(i as int));
        assert(al[i as int] == card.aliases@[i as int]@);
        let a = trimmed(&chars_of_string(&card.aliases[i]));
        let id = crate::text::any_of(&a, Class::Alpha) && crate::text::any_of(&a, Class::Digit)
            && crate::text::any_of(&a, Class::Either('-', '_')) && !crate::text::any_of(&a, Class::Space);
        let up = upper_text(&a);
        if id {
            let mut seen = false;
            for j in 0..out.len()
                invariant
                    seen == exists|k: int| 0 <= k < j && views(out@)[k] == up@,
            {
                if crate::text::same(&out[j], &up) {
                    assert(views(out@)[j as int] == up@);
                    seen = true;
                }
            }
            assert(seen == views(out@).contains(up@));
            if !seen {
                let ghost before = views(out@);
                out.push(up);
                assert(views(out@) =~= before.push(upper_all(a@)));
            }
        }
    }
    assert(al.take(card.aliases.len() as int) =~= al);
    let mut r: Vec<String> = Vec::new();
    for i in 0..out.len()
        invariant
            strings(r@) == views(out@).take(i as int),
    {
        let ghost before = strings(r@);
        r.push(text_of(&out[i]));
        assert(strings(r@) =~= before.push(out@[i as int]@));
        assert(views(out@).take(i + 1) =~= views(out@).take(i as int).push(out@[i as int]@));
    }
    assert(views(out@).take(out.len() as int) =~= views(out@));
    r
}

/// `name` stands at `i` of `hay` as a whole word: no ASCII letter or digit
/// just before it or just after it.
pub open spec fn whole_at(hay: Seq<char>, name: Seq<char>, i: int) -> bool {
    &&& occurs_at(hay, name, i)
    &&& (i == 0 || !is_alnum(hay[i - 1]))
    &&& (i + name.len() == hay.len() || !is_alnum(hay[i + name.len()]))
}

/// Whether `text` names `name` as a whole word, whatever the ASCII case.
pub open spec fn names_word(text: Seq<char>, name: Seq<char>) -> bool {
    name.len() > 0 && exists|i: int| whole_at(upper_all(text), upper_all(name), i)
}

/// Whether `text` names `name` as a whole word: `ACME-73` is not in
/// `ACME-7310`, and is in `fix/ACME-73-rtf`. Case does not matter.
pub fn names(text: &str, name: &str) -> (r: bool)
    ensures
        r == names_word(text@, name@),
{
    let n = chars_of(name);
    if n.len() == 0 {
        return false;
    }
    let hay = upper_text(&chars_of(text));
    let needle = upper_text(&n);
    let m = needle.len();
    let mut i: usize = 0;
    while m <= hay.len() && i <= hay.len() - m
        invariant
            m == needle.len(),
            m > 0,
            hay@ == upper_all(text@),
            needle@ == upper_all(name@),
            forall|j: int| 0 <= j < i ==> !whole_at(hay@, needle@, j),
        decreases hay.len() - i,
    {
        if crate::text::is_at(&hay, &needle, i) {
            let before = i == 0 || !crate::text::alnum(hay[i - 1]);
            let after = i + m == hay.len() || !crate::text::alnum(hay[i + m]);
            if before && after {
                assert(whole_at(hay@, needle@, i as int));
                return true;
            }
        }
        i = i + 1;
    }
    assert forall|j: int| !whole_at(hay@, needle@, j) by {
        if j >= i {
            assert(!occurs_at(hay@, needle@, j));
        }
    }
    false
}

/// Whole days from one second to another, never fewer than none: a moment
/// in the future - a clock set wrong on the machine that committed - is no
/// days, not a negative number of them.
pub open spec fn elapsed_days(then: int, now: int) -> int {
    if now - then <= 0 {
        0
    } else {
        (now - then) / 86400
    }
}

/// Whole days from the second `then` to the second `now`.
pub fn days_from(then: i64, now: i64) -> (r: i64)
    requires
        in_time(then as int),
        in_time(now as int),
    ensures
        r == elapsed_days(then as int, now as int),
        r >= 0,
{
    let seconds = now - then;
    if seconds <= 0 {
        0
    } else {
        seconds / 86400
    }
}

/// Whole days from a moment to now; `None` when the moment does not read.
/// What "now" is rests with the clock: the days are whole, never negative,
/// and counted to some second a timestamp can hold.
pub fn days_since(at: &str) -> (r: Option<i64>)
    ensures
        r is None <==> timestamp_seconds(at@) is None,
        r matches Some(d) ==> d >= 0 && exists|now: int|
            in_time(now) && d == elapsed_days(timestamp_seconds(at@)->0 as int, now),
{
    let then = match moment_seconds(at) {
        Some(s) => s,
        None => return None,
    };
    let now = now_seconds();
    let d = days_from(then, now);
    assert(in_time(now as int) && d == elapsed_days(then as int, now as int));
    Some(d)
}

} // verus!
