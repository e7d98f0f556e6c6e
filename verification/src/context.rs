//! The context packet: what an assistant needs to start a session.
//!
//! The packet has a budget, and the budget is a gate: when the record does
//! not fit, the packet drops the oldest events and says how many it left
//! out, rather than silently truncating.
use vstd::prelude::*;
use crate::text::{append, append_str, chars_of, chars_of_string, is_space, last_in, last_of, lines, lines_of, slice, split_at_each, split_on, text_of, trim, trimmed, utf8_len, views, width_of, Class};

verus! {

/// Four characters to a token, rounded up.
pub open spec fn tokens_for(s: Seq<char>) -> nat {
    ((s.len() + 3) / 4) as nat
}

pub fn tokens_of(s: &Vec<char>) -> (r: usize)
    ensures
        r == tokens_for(s@),
        r <= s.len() / 4 + 1,
{
    let n = s.len();
    n / 4 + if n % 4 > 0 {
        1
    } else {
        0
    }
}

/// Tokens, approximated from characters (not bytes): four to a token,
/// rounded up.
pub fn estimate_tokens(text: &str) -> (r: usize)
    ensures
        r == tokens_for(text@),
{
    let s = chars_of(text);
    tokens_of(&s)
}

/// The ellipsis a cut text ends with.
pub open spec fn ellipsis() -> Seq<char> {
    seq!['…']
}

/// A text cut to `limit` characters at a word boundary, with an ellipsis
/// saying something was left out; left alone when it fits.
pub open spec fn shortened(s: Seq<char>, limit: nat) -> Seq<char> {
    if s.len() <= limit {
        s
    } else {
        let cut = s.take(limit as int);
        match last_in(cut, Class::Space) {
            Some(i) => cut.take(i) + ellipsis(),
            None => cut + ellipsis(),
        }
    }
}

pub fn shorten_chars(s: &Vec<char>, limit: usize) -> (r: Vec<char>)
    ensures
        r@ == shortened(s@, limit as nat),
{
    if s.len() <= limit {
        return slice(s, 0, s.len());
    }
    let cut = slice(s, 0, limit);
    let mut out = match last_of(&cut, Class::Space) {
        Some(i) => slice(&cut, 0, i),
        None => cut,
    };
    out.push('…');
    out
}

/// Trims at a word boundary, saying how much was left out.
pub fn shorten(text: &str, limit: usize) -> (r: String)
    ensures
        r@ == shortened(text@, limit as nat),
{
    let s = chars_of(text);
    let out = shorten_chars(&s, limit);
    text_of(&out)
}

/// Whether a sentence ends at `i`: a stop, white space after it, and no
/// digit before it (a version number or an abbreviation is not an end).
pub open spec fn ends_sentence(t: Seq<char>, i: int) -> bool {
    &&& 0 <= i && i + 1 < t.len()
    &&& (t[i] == '.' || t[i] == '!' || t[i] == '?')
    &&& is_space(t[i + 1])
    &&& !(i > 0 && crate::text::is_digit(t[i - 1]))
}

/// The first end of a sentence at or after `i`.
pub open spec fn end_from(t: Seq<char>, i: int) -> Option<int>
    decreases t.len() - i,
{
    if i < 0 || i >= t.len() {
        None
    } else if ends_sentence(t, i) {
        Some(i)
    } else {
        end_from(t, i + 1)
    }
}

/// The first sentence, or the whole text cut to 400 characters when no
/// sentence ends within the first 400 bytes.
pub open spec fn first_sentence_of(t: Seq<char>) -> Seq<char> {
    match end_from(t, 0) {
        Some(i) => if utf8_len(t.take(i + 1)) <= 400 {
            t.take(i + 1)
        } else {
            shortened(t, 400)
        },
        None => shortened(t, 400),
    }
}

pub fn first_sentence(text: &Vec<char>) -> (r: Vec<char>)
    ensures
        r@ == first_sentence_of(text@),
{
    let n = text.len();
    let mut i: usize = 0;
    let mut bytes: usize = 0;
    while i < n
        invariant
            n == text.len(),
            i <= n,
            end_from(text@, i as int) == end_from(text@, 0),
            bytes <= 400 ==> bytes == utf8_len(text@.take(i as int)),
            bytes > 400 ==> utf8_len(text@.take(i as int)) > 400,
            bytes <= 404,
        decreases n - i,
    {
        assert(text@.take(i + 1).drop_last() =~= text@.take(i as int));
        let c = text[i];
        let w = width_of(c);
        let stop = (c == '.' || c == '!' || c == '?') && i + 1 < n && crate::text::space(text[i + 1]) && !(i > 0
            && crate::text::digit(text[i - 1]));
        if stop {
            assert(ends_sentence(text@, i as int));
            if bytes <= 400 && bytes + w <= 400 {
                return slice(text, 0, i + 1);
            } else {
                return shorten_chars(text, 400);
            }
        }
        if bytes <= 400 {
            bytes = bytes + w;
        }
        i = i + 1;
    }
    shorten_chars(text, 400)
}

/// A paragraph with nothing but white space in it.
pub open spec fn blank(p: Seq<char>) -> bool {
    trim(p).len() == 0
}

/// A paragraph as one line: trimmed, its line breaks made spaces.
pub open spec fn one_line(p: Seq<char>) -> Seq<char> {
    trim(p).map_values(|c: char| if c == '\n' { ' ' } else { c })
}

/// The paragraphs that are not blank, in order.
pub open spec fn filled(ps: Seq<Seq<char>>) -> Seq<Seq<char>>
    decreases ps.len(),
{
    if ps.len() == 0 {
        Seq::empty()
    } else if blank(ps.last()) {
        filled(ps.drop_last())
    } else {
        filled(ps.drop_last()).push(ps.last())
    }
}

/// The heading and the first sentence of the paragraph after it.
pub open spec fn summary_core(text: Seq<char>) -> Seq<char> {
    let ps = filled(split_on(text, "\n\n"@));
    if ps.len() == 0 {
        Seq::empty()
    } else if ps.len() == 1 {
        one_line(ps[0])
    } else {
        one_line(ps[0]) + " — "@ + first_sentence_of(one_line(ps[1]))
    }
}

/// What an event says in a packet: its heading and the first sentence of
/// the reasoning, with how many characters were left out when that is more
/// than forty.
pub open spec fn summary(text: Seq<char>) -> Seq<char> {
    let out = summary_core(text);
    if text.len() > out.len() + 40 {
        out + " (+"@ + crate::text::decimal((text.len() - out.len()) as nat) + " chars)"@
    } else {
        out
    }
}

fn one_line_of(p: &Vec<char>) -> (r: Vec<char>)
    ensures
        r@ == one_line(p@),
{
    let t = trimmed(p);
    let mut out: Vec<char> = Vec::new();
    for i in 0..t.len()
        invariant
            out@ == t@.take(i as int).map_values(|c: char| if c == '\n' { ' ' } else { c }),
    {
        let c = t[i];
        out.push(if c == '\n' { ' ' } else { c });
        assert(t@.take(i + 1).map_values(|c: char| if c == '\n' { ' ' } else { c }) =~= t@.take(i as int).map_values(
            |c: char| if c == '\n' { ' ' } else { c },
        ).push(if c == '\n' { ' ' } else { c }));
    }
    assert(t@.take(t.len() as int) =~= t@);
    out
}

/// The line of an event a session needs: the heading and the first
/// sentence of the reasoning.
pub fn summarise(text: &str) -> (r: String)
    ensures
        r@ == summary(text@),
{
    let s = chars_of(text);
    proof {
        reveal_strlit("\n\n");
    }
    let paras = split_at_each(&s, "\n\n");
    let ghost ps = views(paras@);
    let mut found: Vec<Vec<char>> = Vec::new();
    let mut k: usize = 0;
    while k < paras.len() && found.len() < 2
        invariant
            k <= paras.len(),
            ps == views(paras@),
            ps == split_on(s@, "\n\n"@),
            found.len() <= 2,
            views(found@) == filled(ps.take(k as int)),
        decreases paras.len() - k,
    {
        assert(ps.take(k + 1).drop_last() =~= ps.take(k as int));
        assert(ps[k as int] == paras@[k as int]@);
        let t = trimmed(&paras[k]);
        if t.len() > 0 {
            let ghost before = views(found@);
            assert(paras@[k as int]@.subrange(0, paras@[k as int]@.len() as int) =~= paras@[k as int]@);
            found.push(slice(&paras[k], 0, paras[k].len()));
            assert(views(found@) =~= before.push(paras@[k as int]@));
        }
        k = k + 1;
    }
    proof {
        lemma_filled_prefix(ps, k as int);
        if k == paras.len() {
            assert(ps.take(k as int) =~= ps);
        }
    }
    let mut out: Vec<char> = if found.len() == 0 {
        Vec::new()
    } else {
        assert(views(found@)[0] == found@[0]@);
        one_line_of(&found[0])
    };
    if found.len() > 1 {
        assert(views(found@)[1] == found@[1]@);
        append_str(&mut out, " — ");
        let second = one_line_of(&found[1]);
        let sentence = first_sentence(&second);
        append(&mut out, &sentence);
    }
    assert(out@ == summary_core(text@));
    let full = s.len();
    let kept = out.len();
    if full > kept && full - kept > 40 {
        append_str(&mut out, " (+");
        crate::text::push_decimal(&mut out, (full - kept) as u64);
        append_str(&mut out, " chars)");
    }
    text_of(&out)
}

/// Whether the paragraphs found so far agree with all of them where the
/// count matters: the first two that are not blank are the same.
proof fn lemma_filled_prefix(ps: Seq<Seq<char>>, k: int)
    requires
        0 <= k <= ps.len(),
        k < ps.len() ==> filled(ps.take(k)).len() >= 2,
    ensures
        filled(ps).len() >= filled(ps.take(k)).len(),
        forall|j: int| 0 <= j < filled(ps.take(k)).len() ==> filled(ps)[j] == filled(ps.take(k))[j],
        k < ps.len() ==> filled(ps).len() >= 2,
    decreases ps.len() - k,
{
    if k < ps.len() {
        assert(ps.take(k + 1).drop_last() =~= ps.take(k));
        lemma_filled_prefix(ps, k + 1);
    } else {
        assert(ps.take(k) =~= ps);
    }
}

/// The first line with something in it.
pub open spec fn first_filled(ls: Seq<Seq<char>>) -> Seq<char>
    decreases ls.len(),
{
    if ls.len() == 0 {
        Seq::empty()
    } else if !blank(ls[0]) {
        ls[0]
    } else {
        first_filled(ls.drop_first())
    }
}

/// The first line of a body, short enough to name it by.
pub open spec fn head(body: Seq<char>) -> Seq<char> {
    shortened(trim(first_filled(lines(body))), 80)
}

pub fn head_of(body: &String) -> (r: Vec<char>)
    ensures
        r@ == head(body@),
{
    let s = chars_of_string(body);
    let ls = lines_of(&s);
    let ghost all = views(ls@);
    let mut k: usize = 0;
    assert(all.skip(0) =~= all);
    while k < ls.len()
        invariant
            k <= ls.len(),
            all == views(ls@),
            all == lines(body@),
            first_filled(all.skip(k as int)) == first_filled(all),
        decreases ls.len() - k,
    {
        assert(all.skip(k as int)[0] == ls@[k as int]@);
        let t = trimmed(&ls[k]);
        if t.len() > 0 {
            assert(first_filled(all.skip(k as int)) == ls@[k as int]@);
            return shorten_chars(&t, 80);
        }
        assert(all.skip(k as int).drop_first() =~= all.skip(k + 1));
        k = k + 1;
    }
    assert(all.skip(k as int).len() == 0);
    let empty: Vec<char> = Vec::new();
    proof {
        assert(trim(Seq::<char>::empty()) =~= Seq::<char>::empty());
    }
    shorten_chars(&empty, 80)
}

pub const DEFAULT_BUDGET: usize = 3000;

/// What an assistant reads at the start of a session.
#[derive(Debug)]
pub struct Packet {
    pub project: String,
    pub state: State,
    pub current: Option<Stage>,
    pub questions: Vec<Item>,
    pub wishes: Vec<Item>,
    pub events: Vec<Event>,
    /// One line per handwritten text the project has.
    pub documents: Vec<DocLine>,
    pub next_step: Option<String>,
    /// How many recent events the budget left out.
    pub events_omitted: usize,
    /// How many events are older than the window the packet looks at.
    pub events_beyond_window: usize,
    /// What the budget refused, line by line, with the reason.
    pub dropped: Vec<Dropped>,
}

/// A line the budget would not pay for.
#[derive(Debug)]
pub struct Dropped {
    pub kind: String,
    pub date: String,
    /// The first line of what was left out, so it can be asked for by name.
    pub head: String,
    pub tokens: usize,
    pub why: &'static str,
}

#[derive(Debug)]
pub struct State {
    pub path: String,
    pub remote: Option<String>,
    pub last_shipped: Option<String>,
    pub last_shipped_on: Option<String>,
    pub versions_planned: u64,
    pub tasks_open: u64,
    /// Days since anything was recorded about this project.
    pub days_quiet: Option<i64>,
    /// Commits since the newest tag, as the last `sync` read them.
    pub commits_since_tag: Option<u32>,
    /// Days since the last commit.
    pub days_since_commit: Option<i64>,
    /// What has happened since the last session ended, if there was one.
    pub since_last_session: Option<SinceLastSession>,
    /// The command that says this project is fit to commit.
    pub gate: Option<String>,
}

/// The difference between now and where the last sitting stopped.
#[derive(Debug)]
pub struct SinceLastSession {
    /// When the previous session ended.
    pub ended_at: String,
    pub days_ago: Option<i64>,
    /// Events recorded since, not counting those read from commits.
    pub events: usize,
    /// Changes read out of commit messages since.
    pub commits: usize,
}

#[derive(Debug)]
pub struct Stage {
    pub version: String,
    pub title: Option<String>,
    pub tasks: Vec<crate::db::Task>,
}

#[derive(Debug)]
pub struct Item {
    pub id: i64,
    pub text: String,
    /// The neighbour who asked for it, when a wish came from one.
    pub asked_by: Option<String>,
}

#[derive(Debug)]
pub struct Event {
    pub kind: String,
    pub date: String,
    pub body: String,
}

/// A handwritten text of a project, as one line of the packet names it.
#[derive(Debug, Clone)]
pub struct DocLine {
    pub kind: String,
    pub slug: String,
    pub title: String,
    pub updated_at: String,
}

/// What each section of the packet costs.
#[derive(Debug)]
pub struct Cost {
    pub section: &'static str,
    pub tokens: usize,
}

/// `n one` or `n many`.
pub open spec fn plural_text(n: nat, one: Seq<char>, many: Seq<char>) -> Seq<char> {
    crate::text::decimal(n) + " "@ + if n == 1 {
        one
    } else {
        many
    }
}

pub fn push_plural(out: &mut Vec<char>, n: u64, one: &str, many: &str)
    ensures
        final(out)@ == old(out)@ + plural_text(n as nat, one@, many@),
{
    crate::text::push_decimal(out, n);
    append_str(out, " ");
    if n == 1 {
        append_str(out, one);
    } else {
        append_str(out, many);
    }
}

/// "today", "yesterday" or "N days ago".
pub open spec fn days_ago_text(days: int) -> Seq<char> {
    if days == 0 {
        "today"@
    } else if days == 1 {
        "yesterday"@
    } else {
        crate::text::signed_decimal(days) + " days ago"@
    }
}

pub(crate) fn push_days_ago(out: &mut Vec<char>, days: i64)
    ensures
        final(out)@ == old(out)@ + days_ago_text(days as int),
{
    if days == 0 {
        append_str(out, "today");
    } else if days == 1 {
        append_str(out, "yesterday");
    } else {
        crate::text::push_signed(out, days);
        append_str(out, " days ago");
    }
}

fn push_string(out: &mut Vec<char>, s: &String)
    ensures
        final(out)@ == old(out)@ + s@,
{
    let v = chars_of_string(s);
    append(out, &v);
}

pub open spec fn when_text(s: SinceLastSession) -> Seq<char> {
    match s.days_ago {
        Some(n) => if n == 0 {
            "earlier today"@
        } else if n == 1 {
            "yesterday"@
        } else {
            crate::text::signed_decimal(n as int) + " days ago"@
        },
        None => s.ended_at@,
    }
}

pub open spec fn recorded_text(s: SinceLastSession) -> Seq<char> {
    plural_text(s.events as nat, "event"@, "events"@) + " recorded"@
}

pub open spec fn committed_text(s: SinceLastSession) -> Seq<char> {
    plural_text(s.commits as nat, "change"@, "changes"@) + " committed"@
}

/// What was recorded and what was committed since, joined by a comma.
pub open spec fn since_parts(s: SinceLastSession) -> Seq<char> {
    if s.events > 0 && s.commits > 0 {
        recorded_text(s) + ", "@ + committed_text(s)
    } else if s.events > 0 {
        recorded_text(s)
    } else {
        committed_text(s)
    }
}

pub open spec fn since_text(s: SinceLastSession) -> Seq<char> {
    if s.events == 0 && s.commits == 0 {
        "Last session ended "@ + when_text(s) + "; nothing since\n"@
    } else {
        "Last session ended "@ + when_text(s) + ": "@ + since_parts(s) + "\n"@
    }
}

fn when_of(s: &SinceLastSession) -> (r: Vec<char>)
    ensures
        r@ == when_text(*s),
{
    let mut out: Vec<char> = Vec::new();
    match s.days_ago {
        Some(n) => {
            if n == 0 {
                append_str(&mut out, "earlier today");
            } else if n == 1 {
                append_str(&mut out, "yesterday");
            } else {
                crate::text::push_signed(&mut out, n);
                append_str(&mut out, " days ago");
            }
        },
        None => push_string(&mut out, &s.ended_at),
    }
    out
}

fn parts_of(s: &SinceLastSession) -> (r: Vec<char>)
    ensures
        r@ == since_parts(*s),
{
    let mut rec: Vec<char> = Vec::new();
    push_plural(&mut rec, s.events as u64, "event", "events");
    append_str(&mut rec, " recorded");
    assert(rec@ =~= recorded_text(*s));
    let mut com: Vec<char> = Vec::new();
    push_plural(&mut com, s.commits as u64, "change", "changes");
    append_str(&mut com, " committed");
    assert(com@ =~= committed_text(*s));
    if s.events > 0 && s.commits > 0 {
        append_str(&mut rec, ", ");
        append(&mut rec, &com);
        rec
    } else if s.events > 0 {
        rec
    } else {
        com
    }
}

fn push_since(out: &mut Vec<char>, s: &SinceLastSession)
    ensures
        final(out)@ == old(out)@ + since_text(*s),
{
    let w = when_of(s);
    append_str(out, "Last session ended ");
    append(out, &w);
    if s.events == 0 && s.commits == 0 {
        append_str(out, "; nothing since\n");
    } else {
        let p = parts_of(s);
        append_str(out, ": ");
        append(out, &p);
        append_str(out, "\n");
    }
}

/// Whether `part` stands somewhere in `text`.
pub open spec fn mentions(text: Seq<char>, part: Seq<char>) -> bool {
    exists|i: int| 0 <= i && i + part.len() <= text.len() && #[trigger] text.subrange(i, i + part.len()) == part
}

pub proof fn lemma_mentions_at(text: Seq<char>, part: Seq<char>, i: int)
    requires
        0 <= i && i + part.len() <= text.len(),
        text.subrange(i, i + part.len()) == part,
    ensures
        mentions(text, part),
{
}

pub proof fn lemma_mentions_within(a: Seq<char>, b: Seq<char>, c: Seq<char>, part: Seq<char>)
    requires
        mentions(b, part),
    ensures
        mentions(a + b + c, part),
{
    let i = choose|i: int| 0 <= i && i + part.len() <= b.len() && #[trigger] b.subrange(i, i + part.len()) == part;
    let t = a + b + c;
    assert(t.subrange(a.len() + i, a.len() + i + part.len()) =~= b.subrange(i, i + part.len()));
    lemma_mentions_at(t, part, a.len() + i);
}

/// The line on the last session names every count that is not zero: the
/// events recorded since it ended, and the changes committed since.
pub proof fn law_since_last_session_names_every_count(s: SinceLastSession)
    ensures
        s.events > 0 ==> mentions(since_text(s), plural_text(s.events as nat, "event"@, "events"@) + " recorded"@),
        s.commits > 0 ==> mentions(since_text(s), plural_text(s.commits as nat, "change"@, "changes"@) + " committed"@),
{
    let pre = "Last session ended "@ + when_text(s) + ": "@;
    let rec = recorded_text(s);
    let com = committed_text(s);
    let nl = "\n"@;
    if s.events > 0 || s.commits > 0 {
        let parts = since_parts(s);
        assert(since_text(s) =~= pre + parts + nl);
        if s.events > 0 {
            let rest = if s.commits > 0 {
                ", "@ + com
            } else {
                Seq::empty()
            };
            assert(parts =~= rec + rest);
            assert(parts.subrange(0, rec.len() as int) =~= rec);
            lemma_mentions_at(parts, rec, 0);
            lemma_mentions_within(pre, parts, nl, rec);
        }
        if s.commits > 0 {
            let lead = if s.events > 0 {
                rec + ", "@
            } else {
                Seq::empty()
            };
            assert(parts =~= lead + com);
            assert(parts.subrange(lead.len() as int, (lead.len() + com.len()) as int) =~= com);
            lemma_mentions_at(parts, com, lead.len() as int);
            lemma_mentions_within(pre, parts, nl, com);
        }
    }
}

/// The line on the last session begins by saying when it ended - earlier
/// today, yesterday, so many days ago, or the moment itself when the days
/// are not known - and says "nothing since" when nothing was recorded or
/// committed since.
pub proof fn law_since_last_session_says_when(s: SinceLastSession)
    ensures
        ({
            let when = match s.days_ago {
                Some(n) => if n == 0 {
                    "earlier today"@
                } else if n == 1 {
                    "yesterday"@
                } else {
                    crate::text::signed_decimal(n as int) + " days ago"@
                },
                None => s.ended_at@,
            };
            let lead = "Last session ended "@ + when;
            since_text(s).len() >= lead.len() && since_text(s).take(lead.len() as int) == lead
        }),
        s.events == 0 && s.commits == 0 ==> mentions(since_text(s), "; nothing since\n"@),
{
    let lead = "Last session ended "@ + when_text(s);
    let t = since_text(s);
    let rest = t.skip(lead.len() as int);
    assert(t =~= lead + rest);
    assert(t.take(lead.len() as int) =~= lead);
    if s.events == 0 && s.commits == 0 {
        let tail = "; nothing since\n"@;
        assert(t =~= lead + tail);
        assert(t.subrange(lead.len() as int, (lead.len() + tail.len()) as int) =~= tail);
        lemma_mentions_at(t, tail, lead.len() as int);
    }
}

/// The state section of a packet carries that line: after a session, it
/// names the events recorded and the changes committed since, each that
/// is not zero.
pub proof fn law_the_packet_says_what_happened_since(p: Packet)
    ensures
        p.state.since_last_session matches Some(s) ==> (s.events > 0 ==> mentions(
            state_text(p),
            plural_text(s.events as nat, "event"@, "events"@) + " recorded"@,
        )) && (s.commits > 0 ==> mentions(state_text(p), plural_text(s.commits as nat, "change"@, "changes"@) + " committed"@)),
{
    if let Some(s) = p.state.since_last_session {
        law_since_last_session_names_every_count(s);
        let t = state_text(p);
        let line = since_text(s);
        let before = t.subrange(0, t.len() - line.len());
        assert(t =~= before + line + Seq::<char>::empty());
        if s.events > 0 {
            lemma_mentions_within(before, line, Seq::empty(), plural_text(s.events as nat, "event"@, "events"@) + " recorded"@);
        }
        if s.commits > 0 {
            lemma_mentions_within(
                before,
                line,
                Seq::empty(),
                plural_text(s.commits as nat, "change"@, "changes"@) + " committed"@,
            );
        }
    }
}

pub open spec fn opt_line(o: Option<String>, before: Seq<char>) -> Seq<char> {
    match o {
        Some(t) => before + t@ + "\n"@,
        None => Seq::empty(),
    }
}

pub open spec fn shipped_line(st: State) -> Seq<char> {
    match (st.last_shipped, st.last_shipped_on) {
        (Some(v), Some(on)) => "Last shipped: "@ + v@ + " on "@ + on@ + "\n"@,
        _ => "Nothing shipped yet\n"@,
    }
}

pub open spec fn counts_line(st: State) -> Seq<char> {
    plural_text(st.versions_planned as nat, "version"@, "versions"@) + " planned, "@ + plural_text(
        st.tasks_open as nat,
        "task"@,
        "tasks"@,
    ) + " open\n"@
}

/// What git says: commits since the last release, and how long ago the
/// last one was.
pub open spec fn git_line(st: State) -> Seq<char> {
    match (st.commits_since_tag, st.days_since_commit) {
        (Some(c), Some(d)) => if c == 0 && d > 0 {
            "Nothing committed since the last release, "@ + days_ago_text(d as int) + "\n"@
        } else if c > 0 {
            crate::text::decimal(c as nat) + " "@ + (if c == 1 {
                "commit"@
            } else {
                "commits"@
            }) + " since the last release, the last one "@ + days_ago_text(d as int) + "\n"@
        } else {
            Seq::empty()
        },
        _ => Seq::empty(),
    }
}

/// A fortnight of quiet is worth seeing; a day or two is not.
pub open spec fn quiet_line(st: State) -> Seq<char> {
    match st.days_quiet {
        Some(d) => if d >= 7 {
            "Quiet for "@ + crate::text::signed_decimal(d as int) + " days\n"@
        } else {
            Seq::empty()
        },
        None => Seq::empty(),
    }
}

pub open spec fn since_line(st: State) -> Seq<char> {
    match st.since_last_session {
        Some(s) => since_text(s),
        None => Seq::empty(),
    }
}

/// The state section of a packet.
pub open spec fn state_text(p: Packet) -> Seq<char> {
    "# "@ + p.project@ + "\n\n"@ + p.state.path@ + "\n"@ + opt_line(p.state.remote, Seq::empty()) + shipped_line(p.state)
        + counts_line(p.state) + git_line(p.state) + quiet_line(p.state) + opt_line(p.state.gate, "Gate: "@)
        + since_line(p.state)
}

fn push_opt_line(out: &mut Vec<char>, o: &Option<String>, before: &str)
    ensures
        final(out)@ == old(out)@ + opt_line(*o, before@),
{
    match o {
        Some(t) => {
            let mut line: Vec<char> = Vec::new();
            append_str(&mut line, before);
            push_string(&mut line, t);
            append_str(&mut line, "\n");
            append(out, &line);
        },
        None => {
            assert(old(out)@ + Seq::<char>::empty() =~= old(out)@);
        },
    }
}

fn shipped_of(st: &State) -> (r: Vec<char>)
    ensures
        r@ == shipped_line(*st),
{
    let mut out: Vec<char> = Vec::new();
    match (&st.last_shipped, &st.last_shipped_on) {
        (Some(v), Some(on)) => {
            append_str(&mut out, "Last shipped: ");
            push_string(&mut out, v);
            append_str(&mut out, " on ");
            push_string(&mut out, on);
            append_str(&mut out, "\n");
        },
        _ => append_str(&mut out, "Nothing shipped yet\n"),
    }
    out
}

fn counts_of(st: &State) -> (r: Vec<char>)
    ensures
        r@ == counts_line(*st),
{
    let mut out: Vec<char> = Vec::new();
    push_plural(&mut out, st.versions_planned, "version", "versions");
    append_str(&mut out, " planned, ");
    push_plural(&mut out, st.tasks_open, "task", "tasks");
    append_str(&mut out, " open\n");
    out
}

fn git_of(st: &State) -> (r: Vec<char>)
    ensures
        r@ == git_line(*st),
{
    let mut out: Vec<char> = Vec::new();
    match (st.commits_since_tag, st.days_since_commit) {
        (Some(c), Some(d)) => {
            if c == 0 && d > 0 {
                append_str(&mut out, "Nothing committed since the last release, ");
                push_days_ago(&mut out, d);
                append_str(&mut out, "\n");
            } else if c > 0 {
                crate::text::push_decimal(&mut out, c as u64);
                append_str(&mut out, " ");
                if c == 1 {
                    append_str(&mut out, "commit");
                } else {
                    append_str(&mut out, "commits");
                }
                append_str(&mut out, " since the last release, the last one ");
                push_days_ago(&mut out, d);
                append_str(&mut out, "\n");
            }
        },
        _ => {},
    }
    out
}

fn quiet_of(st: &State) -> (r: Vec<char>)
    ensures
        r@ == quiet_line(*st),
{
    let mut out: Vec<char> = Vec::new();
    match st.days_quiet {
        Some(d) => {
            if d >= 7 {
                append_str(&mut out, "Quiet for ");
                crate::text::push_signed(&mut out, d);
                append_str(&mut out, " days\n");
            }
        },
        None => {},
    }
    out
}

fn state_of(p: &Packet) -> (r: Vec<char>)
    ensures
        r@ == state_text(*p),
{
    let mut out: Vec<char> = Vec::new();
    append_str(&mut out, "# ");
    push_string(&mut out, &p.project);
    append_str(&mut out, "\n\n");
    push_string(&mut out, &p.state.path);
    append_str(&mut out, "\n");
    push_opt_line(&mut out, &p.state.remote, "");
    let a = shipped_of(&p.state);
    append(&mut out, &a);
    let b = counts_of(&p.state);
    append(&mut out, &b);
    let c = git_of(&p.state);
    append(&mut out, &c);
    let d = quiet_of(&p.state);
    append(&mut out, &d);
    push_opt_line(&mut out, &p.state.gate, "Gate: ");
    match &p.state.since_last_session {
        Some(s) => push_since(&mut out, s),
        None => {},
    }
    proof {
        reveal_strlit("");
    }
    out
}

pub open spec fn task_line(t: crate::db::Task) -> Seq<char> {
    if t.status@ == "new"@ {
        "- "@ + t.title@ + "\n"@
    } else {
        "- "@ + t.title@ + " ("@ + t.status@ + ")\n"@
    }
}

pub open spec fn tasks_text(ts: Seq<crate::db::Task>) -> Seq<char>
    decreases ts.len(),
{
    if ts.len() == 0 {
        Seq::empty()
    } else {
        tasks_text(ts.drop_last()) + task_line(ts.last())
    }
}

/// The current stage: its version and title, and a line per task, marked
/// with its status unless it is `new`.
pub open spec fn stage_text(st: Stage) -> Seq<char> {
    "\n## Current stage: "@ + st.version@ + match st.title {
        Some(t) => " · "@ + t@,
        None => Seq::empty(),
    } + "\n"@ + tasks_text(st.tasks@)
}

fn stage_of(st: &Stage) -> (r: Vec<char>)
    ensures
        r@ == stage_text(*st),
{
    let mut out: Vec<char> = Vec::new();
    append_str(&mut out, "\n## Current stage: ");
    push_string(&mut out, &st.version);
    match &st.title {
        Some(t) => {
            append_str(&mut out, " · ");
            push_string(&mut out, t);
        },
        None => {},
    }
    append_str(&mut out, "\n");
    let ghost start = out@;
    for i in 0..st.tasks.len()
        invariant
            out@ == start + tasks_text(st.tasks@.take(i as int)),
    {
        assert(st.tasks@.take(i + 1).drop_last() =~= st.tasks@.take(i as int));
        let t = &st.tasks[i];
        let mut line: Vec<char> = Vec::new();
        append_str(&mut line, "- ");
        push_string(&mut line, &t.title);
        let status = chars_of_string(&t.status);
        if crate::text::same_str(&status, "new") {
            append_str(&mut line, "\n");
        } else {
            append_str(&mut line, " (");
            append(&mut line, &status);
            append_str(&mut line, ")\n");
        }
        assert(line@ =~= task_line(*t));
        append(&mut out, &line);
    }
    assert(st.tasks@.take(st.tasks.len() as int) =~= st.tasks@);
    out
}

pub open spec fn item_line(i: Item) -> Seq<char> {
    match i.asked_by {
        Some(w) => "- ["@ + crate::text::signed_decimal(i.id as int) + "] ("@ + w@ + " asks) "@ + i.text@ + "\n"@,
        None => "- ["@ + crate::text::signed_decimal(i.id as int) + "] "@ + i.text@ + "\n"@,
    }
}

pub open spec fn item_lines(items: Seq<Item>) -> Seq<char>
    decreases items.len(),
{
    if items.len() == 0 {
        Seq::empty()
    } else {
        item_lines(items.drop_last()) + item_line(items.last())
    }
}

/// A list of questions or wishes under a heading; nothing at all when the
/// list is empty.
pub open spec fn items_text(heading: Seq<char>, items: Seq<Item>) -> Seq<char> {
    if items.len() == 0 {
        Seq::empty()
    } else {
        (if heading.len() == 0 {
            Seq::empty()
        } else {
            "\n## "@ + heading + "\n"@
        }) + item_lines(items)
    }
}

fn items_of(heading: &str, items: &Vec<Item>) -> (r: Vec<char>)
    ensures
        r@ == items_text(heading@, items@),
{
    let mut out: Vec<char> = Vec::new();
    if items.len() == 0 {
        return out;
    }
    let h = chars_of(heading);
    if h.len() > 0 {
        append_str(&mut out, "\n## ");
        append(&mut out, &h);
        append_str(&mut out, "\n");
    }
    let ghost start = out@;
    for i in 0..items.len()
        invariant
            out@ == start + item_lines(items@.take(i as int)),
    {
        assert(items@.take(i + 1).drop_last() =~= items@.take(i as int));
        let it = &items[i];
        let mut line: Vec<char> = Vec::new();
        append_str(&mut line, "- [");
        crate::text::push_signed(&mut line, it.id);
        match &it.asked_by {
            Some(w) => {
                append_str(&mut line, "] (");
                push_string(&mut line, w);
                append_str(&mut line, " asks) ");
            },
            None => {
                append_str(&mut line, "] ");
            },
        }
        push_string(&mut line, &it.text);
        append_str(&mut line, "\n");
        assert(line@ =~= item_line(*it));
        append(&mut out, &line);
    }
    assert(items@.take(items.len() as int) =~= items@);
    out
}

pub open spec fn event_line(date: Seq<char>, kind: Seq<char>, body: Seq<char>) -> Seq<char> {
    "- "@ + date + " · "@ + kind + " · "@ + body + "\n"@
}

pub open spec fn event_text(e: Event) -> Seq<char> {
    event_line(e.date@, e.kind@, e.body@)
}

pub open spec fn events_text(es: Seq<Event>) -> Seq<char>
    decreases es.len(),
{
    if es.len() == 0 {
        Seq::empty()
    } else {
        events_text(es.drop_last()) + event_text(es.last())
    }
}

fn event_of(e: &Event) -> (r: Vec<char>)
    ensures
        r@ == event_text(*e),
{
    let mut out: Vec<char> = Vec::new();
    append_str(&mut out, "- ");
    push_string(&mut out, &e.date);
    append_str(&mut out, " · ");
    push_string(&mut out, &e.kind);
    append_str(&mut out, " · ");
    push_string(&mut out, &e.body);
    append_str(&mut out, "\n");
    out
}

/// What the recent section says of what it left out.
pub open spec fn left_out_note(dropped: nat, beyond: nat) -> Seq<char> {
    if dropped == 0 && beyond == 0 {
        Seq::empty()
    } else if dropped == 0 {
        "("@ + crate::text::decimal(beyond) + " older events are beyond the window the packet looks at; `rigger find` reaches them)\n"@
    } else if beyond == 0 {
        "("@ + crate::text::decimal(dropped) + " events left out by the budget; `--explain` names them)\n"@
    } else {
        "("@ + crate::text::decimal(dropped) + " events left out by the budget - `--explain` names them - and "@
            + crate::text::decimal(beyond) + " more are beyond the window)\n"@
    }
}

/// The recent events, and a line on what was left out: said even when
/// nothing fit at all.
pub open spec fn recent_text(p: Packet) -> Seq<char> {
    if p.events.len() > 0 || p.events_omitted > 0 {
        "\n## Recent\n"@ + events_text(p.events@) + left_out_note(p.events_omitted as nat, p.events_beyond_window as nat)
    } else {
        Seq::empty()
    }
}

fn note_of(dropped: usize, beyond: usize) -> (r: Vec<char>)
    ensures
        r@ == left_out_note(dropped as nat, beyond as nat),
{
    let mut out: Vec<char> = Vec::new();
    if dropped == 0 && beyond == 0 {
    } else if dropped == 0 {
        append_str(&mut out, "(");
        crate::text::push_decimal(&mut out, beyond as u64);
        append_str(&mut out, " older events are beyond the window the packet looks at; `rigger find` reaches them)\n");
    } else if beyond == 0 {
        append_str(&mut out, "(");
        crate::text::push_decimal(&mut out, dropped as u64);
        append_str(&mut out, " events left out by the budget; `--explain` names them)\n");
    } else {
        append_str(&mut out, "(");
        crate::text::push_decimal(&mut out, dropped as u64);
        append_str(&mut out, " events left out by the budget - `--explain` names them - and ");
        crate::text::push_decimal(&mut out, beyond as u64);
        append_str(&mut out, " more are beyond the window)\n");
    }
    out
}

fn recent_of(p: &Packet) -> (r: Vec<char>)
    ensures
        r@ == recent_text(*p),
{
    let mut out: Vec<char> = Vec::new();
    if p.events.len() > 0 || p.events_omitted > 0 {
        append_str(&mut out, "\n## Recent\n");
        let ghost start = out@;
        for i in 0..p.events.len()
            invariant
                out@ == start + events_text(p.events@.take(i as int)),
        {
            assert(p.events@.take(i + 1).drop_last() =~= p.events@.take(i as int));
            let line = event_of(&p.events[i]);
            append(&mut out, &line);
        }
        assert(p.events@.take(p.events.len() as int) =~= p.events@);
        let note = note_of(p.events_omitted, p.events_beyond_window);
        append(&mut out, &note);
    }
    out
}

pub open spec fn doc_line(project: Seq<char>, d: DocLine) -> Seq<char> {
    "- "@ + d.kind@ + " · "@ + d.title@ + " · "@ + crate::text::split_class(d.updated_at@, Class::Is('T'))[0]
        + " — `rigger doc show "@ + project + " "@ + d.slug@ + "`\n"@
}

pub open spec fn doc_lines(project: Seq<char>, ds: Seq<DocLine>) -> Seq<char>
    decreases ds.len(),
{
    if ds.len() == 0 {
        Seq::empty()
    } else {
        doc_lines(project, ds.drop_last()) + doc_line(project, ds.last())
    }
}

/// What the project has written down, one line each, with the command that
/// opens it.
pub open spec fn documents_text(p: Packet) -> Seq<char> {
    if p.documents.len() == 0 {
        Seq::empty()
    } else {
        "\n## Written down\n"@ + doc_lines(p.project@, p.documents@)
    }
}

fn documents_of(p: &Packet) -> (r: Vec<char>)
    ensures
        r@ == documents_text(*p),
{
    let mut out: Vec<char> = Vec::new();
    if p.documents.len() == 0 {
        return out;
    }
    append_str(&mut out, "\n## Written down\n");
    let ghost start = out@;
    for i in 0..p.documents.len()
        invariant
            out@ == start + doc_lines(p.project@, p.documents@.take(i as int)),
    {
        assert(p.documents@.take(i + 1).drop_last() =~= p.documents@.take(i as int));
        let d = &p.documents[i];
        let stamp = chars_of_string(&d.updated_at);
        let parts = crate::text::split_by(&stamp, Class::Is('T'));
        assert(views(parts@)[0] == parts@[0]@);
        let mut line: Vec<char> = Vec::new();
        append_str(&mut line, "- ");
        push_string(&mut line, &d.kind);
        append_str(&mut line, " · ");
        push_string(&mut line, &d.title);
        append_str(&mut line, " · ");
        append(&mut line, &parts[0]);
        append_str(&mut line, " — `rigger doc show ");
        push_string(&mut line, &p.project);
        append_str(&mut line, " ");
        push_string(&mut line, &d.slug);
        append_str(&mut line, "`\n");
        assert(line@ =~= doc_line(p.project@, *d));
        append(&mut out, &line);
    }
    assert(p.documents@.take(p.documents.len() as int) =~= p.documents@);
    out
}

pub open spec fn next_text(p: Packet) -> Seq<char> {
    match p.next_step {
        Some(n) => "\n## Next step\n"@ + n@ + "\n"@,
        None => Seq::empty(),
    }
}

/// The packet as the assistant reads it.
pub open spec fn packet_text(p: Packet) -> Seq<char> {
    state_text(p) + match p.current {
        Some(st) => stage_text(st),
        None => Seq::empty(),
    } + items_text("Waiting for the owner"@, p.questions@) + items_text("Wishes, not yet sorted"@, p.wishes@)
        + recent_text(p) + documents_text(p) + next_text(p)
}

fn packet_chars(p: &Packet) -> (r: Vec<char>)
    ensures
        r@ == packet_text(*p),
{
    let mut out = state_of(p);
    match &p.current {
        Some(st) => {
            let t = stage_of(st);
            append(&mut out, &t);
        },
        None => {},
    }
    let q = items_of("Waiting for the owner", &p.questions);
    append(&mut out, &q);
    let w = items_of("Wishes, not yet sorted", &p.wishes);
    append(&mut out, &w);
    let r = recent_of(p);
    append(&mut out, &r);
    let d = documents_of(p);
    append(&mut out, &d);
    match &p.next_step {
        Some(n) => {
            append_str(&mut out, "\n## Next step\n");
            push_string(&mut out, n);
            append_str(&mut out, "\n");
        },
        None => {},
    }
    out
}

/// The packet as the assistant reads it.
pub fn render(packet: &Packet) -> (r: String)
    ensures
        r@ == packet_text(*packet),
{
    let out = packet_chars(packet);
    text_of(&out)
}

/// Spaces enough to make `len` characters up to `width`.
pub open spec fn spaces(len: nat, width: nat) -> Seq<char> {
    Seq::new(if len < width {
        (width - len) as nat
    } else {
        0
    }, |i: int| ' ')
}

fn push_spaces(out: &mut Vec<char>, len: usize, width: usize)
    ensures
        final(out)@ == old(out)@ + spaces(len as nat, width as nat),
{
    let ghost start = out@;
    let n: usize = if len < width {
        width - len
    } else {
        0
    };
    let mut k: usize = 0;
    while k < n
        invariant
            k <= n,
            out@ == start + Seq::new(k as nat, |i: int| ' '),
        decreases n - k,
    {
        out.push(' ');
        assert(start + Seq::new((k + 1) as nat, |i: int| ' ') =~= (start + Seq::new(k as nat, |i: int| ' ')).push(' '));
        k = k + 1;
    }
    assert(Seq::new(n as nat, |i: int| ' ') =~= spaces(len as nat, width as nat));
}

/// One refused line: date, kind left-aligned in nine, tokens right-aligned
/// in four, the head and the reason.
pub open spec fn dropped_line(d: Dropped) -> Seq<char> {
    let tokens = crate::text::decimal(d.tokens as nat);
    d.date@ + "  "@ + d.kind@ + spaces(d.kind@.len(), 9) + " "@ + spaces(tokens.len(), 4) + tokens + "t  "@ + d.head@
        + " — "@ + d.why@ + "\n"@
}

pub open spec fn dropped_lines(ds: Seq<Dropped>) -> Seq<char>
    decreases ds.len(),
{
    if ds.len() == 0 {
        Seq::empty()
    } else {
        dropped_lines(ds.drop_last()) + dropped_line(ds.last())
    }
}

pub open spec fn dropped_text(p: Packet) -> Seq<char> {
    if p.dropped.len() == 0 {
        Seq::empty()
    } else {
        "\n## Left out\n"@ + dropped_lines(p.dropped@)
    }
}

/// What the budget refused, for `--explain`.
pub fn render_dropped(packet: &Packet) -> (r: String)
    ensures
        r@ == dropped_text(*packet),
{
    let mut out: Vec<char> = Vec::new();
    if packet.dropped.len() == 0 {
        return text_of(&out);
    }
    append_str(&mut out, "\n## Left out\n");
    let ghost start = out@;
    for i in 0..packet.dropped.len()
        invariant
            out@ == start + dropped_lines(packet.dropped@.take(i as int)),
    {
        assert(packet.dropped@.take(i + 1).drop_last() =~= packet.dropped@.take(i as int));
        let d = &packet.dropped[i];
        let kind = chars_of_string(&d.kind);
        let mut tokens: Vec<char> = Vec::new();
        crate::text::push_decimal(&mut tokens, d.tokens as u64);
        assert(tokens@ =~= crate::text::decimal(d.tokens as nat));
        let mut line: Vec<char> = Vec::new();
        push_string(&mut line, &d.date);
        append_str(&mut line, "  ");
        append(&mut line, &kind);
        push_spaces(&mut line, kind.len(), 9);
        append_str(&mut line, " ");
        push_spaces(&mut line, tokens.len(), 4);
        append(&mut line, &tokens);
        append_str(&mut line, "t  ");
        push_string(&mut line, &d.head);
        append_str(&mut line, " — ");
        append_str(&mut line, d.why);
        append_str(&mut line, "\n");
        assert(line@ =~= dropped_line(*d));
        append(&mut out, &line);
    }
    assert(packet.dropped@.take(packet.dropped.len() as int) =~= packet.dropped@);
    text_of(&out)
}

pub open spec fn events_tokens(es: Seq<Event>) -> nat
    decreases es.len(),
{
    if es.len() == 0 {
        0
    } else {
        events_tokens(es.drop_last()) + tokens_for(event_text(es.last()))
    }
}

/// What each section of a packet costs, before the ones that cost nothing
/// are dropped.
pub open spec fn section_costs(p: Packet) -> Seq<(Seq<char>, nat)> {
    seq![
        ("state"@, tokens_for(state_text(p))),
        ("current stage"@, match p.current {
            Some(st) => tokens_for(stage_text(st)),
            None => 0,
        }),
        ("questions"@, tokens_for(items_text(Seq::empty(), p.questions@))),
        ("wishes"@, tokens_for(items_text(Seq::empty(), p.wishes@))),
        ("events"@, events_tokens(p.events@)),
        ("documents"@, tokens_for(documents_text(p))),
        ("next step"@, match p.next_step {
            Some(n) => tokens_for(n@),
            None => 0,
        }),
    ]
}

/// The costs that are not zero, in order.
pub open spec fn paid(cs: Seq<(Seq<char>, nat)>) -> Seq<(Seq<char>, nat)>
    decreases cs.len(),
{
    if cs.len() == 0 {
        Seq::empty()
    } else if cs.last().1 > 0 {
        paid(cs.drop_last()).push(cs.last())
    } else {
        paid(cs.drop_last())
    }
}

pub open spec fn cost_views(cs: Seq<Cost>) -> Seq<(Seq<char>, nat)> {
    cs.map_values(|c: Cost| (c.section@, c.tokens as nat))
}

fn events_cost(es: &Vec<Event>) -> (r: usize)
    requires
        events_tokens(es@) <= usize::MAX,
    ensures
        r == events_tokens(es@),
{
    let mut total: usize = 0;
    for i in 0..es.len()
        invariant
            total == events_tokens(es@.take(i as int)),
            events_tokens(es@) <= usize::MAX,
    {
        assert(es@.take(i + 1).drop_last() =~= es@.take(i as int));
        proof {
            lemma_events_tokens_grow(es@, i + 1);
        }
        let line = event_of(&es[i]);
        total = total + tokens_of(&line);
    }
    assert(es@.take(es.len() as int) =~= es@);
    total
}

proof fn lemma_events_tokens_grow(es: Seq<Event>, k: int)
    requires
        0 <= k <= es.len(),
    ensures
        events_tokens(es.take(k)) <= events_tokens(es),
    decreases es.len() - k,
{
    if k < es.len() {
        lemma_events_tokens_grow(es, k + 1);
        assert(es.take(k + 1).drop_last() =~= es.take(k));
    } else {
        assert(es.take(k) =~= es);
    }
}

/// What each section of the packet costs, leaving out the ones that cost
/// nothing.
pub fn costs(packet: &Packet) -> (r: Vec<Cost>)
    requires
        events_tokens(packet.events@) <= usize::MAX,
    ensures
        cost_views(r@) == paid(section_costs(*packet)),
{
    let st = state_of(packet);
    let stage = match &packet.current {
        Some(c) => {
            let t = stage_of(c);
            tokens_of(&t)
        },
        None => 0,
    };
    let q = items_of("", &packet.questions);
    let w = items_of("", &packet.wishes);
    let d = documents_of(packet);
    let next = match &packet.next_step {
        Some(n) => {
            let t = chars_of_string(n);
            tokens_of(&t)
        },
        None => 0,
    };
    let all: Vec<Cost> = vec![
        Cost { section: "state", tokens: tokens_of(&st) },
        Cost { section: "current stage", tokens: stage },
        Cost { section: "questions", tokens: tokens_of(&q) },
        Cost { section: "wishes", tokens: tokens_of(&w) },
        Cost { section: "events", tokens: events_cost(&packet.events) },
        Cost { section: "documents", tokens: tokens_of(&d) },
        Cost { section: "next step", tokens: next },
    ];
    proof {
        reveal_strlit("");
        assert(cost_views(all@) =~= section_costs(*packet));
    }
    let mut out: Vec<Cost> = Vec::new();
    for i in 0..all.len()
        invariant
            cost_views(out@) == paid(cost_views(all@).take(i as int)),
    {
        assert(cost_views(all@).take(i + 1).drop_last() =~= cost_views(all@).take(i as int));
        assert(cost_views(all@).take(i + 1).last() == (all@[i as int].section@, all@[i as int].tokens as nat));
        if all[i].tokens > 0 {
            let ghost before = cost_views(out@);
            out.push(Cost { section: all[i].section, tokens: all[i].tokens });
            assert(cost_views(out@) =~= before.push((all@[i as int].section@, all@[i as int].tokens as nat)));
        }
    }
    assert(cost_views(all@).take(all.len() as int) =~= cost_views(all@));
    out
}

/// An event the packet kept: kind, date and what it says.
pub type Kept = (Seq<char>, Seq<char>, Seq<char>);

/// An event the budget refused: kind, date, head, tokens and why.
pub type Refused = (Seq<char>, Seq<char>, Seq<char>, int, Seq<char>);

/// Where filling the packet stands: tokens spent, the chronicle's share
/// left, what was kept and what was refused.
pub type Spending = (int, int, Seq<Kept>, Seq<Refused>);

pub open spec fn over_budget() -> Seq<char> {
    "over the budget"@
}

pub open spec fn share_spent() -> Seq<char> {
    "the chronicle's share of the budget is spent"@
}

/// One recent event offered to the packet: refused when it would take the
/// packet over its budget, or when it was read from a commit and the
/// chronicle's share cannot pay for it; kept otherwise.
pub open spec fn spend(b: Spending, budget: int, r: crate::db::RecentEvent) -> Spending {
    let body = summary(r.body@);
    let cost = tokens_for(event_line(r.date@, r.kind@, body)) as int;
    if b.0 + cost > budget {
        (b.0, b.1, b.2, b.3.push((r.kind@, r.date@, head(body), cost, over_budget())))
    } else if r.from_git && cost > b.1 {
        (b.0, b.1, b.2, b.3.push((r.kind@, r.date@, head(body), cost, share_spent())))
    } else {
        (b.0 + cost, if r.from_git {
            b.1 - cost
        } else {
            b.1
        }, b.2.push((r.kind@, r.date@, body)), b.3)
    }
}

pub open spec fn spend_all(b: Spending, budget: int, rs: Seq<crate::db::RecentEvent>) -> Spending
    decreases rs.len(),
{
    if rs.len() == 0 {
        b
    } else {
        spend(spend_all(b, budget, rs.drop_last()), budget, rs.last())
    }
}

/// The line reserved for what is left out, and the heading above it.
pub open spec fn reserve_text() -> Seq<char> {
    "\n## Recent\n(999 left out by the budget; 999 older than the window)\n"@
}

/// Where filling starts: the packet as it stands, the reserve, and a
/// quarter of what is left for the chronicle.
pub open spec fn first_spending(p: Packet, budget: int) -> Spending {
    let spent: int = (tokens_for(packet_text(p)) + tokens_for(reserve_text())) as int;
    (spent, (if budget > spent {
        budget - spent
    } else {
        0
    }) / 4, Seq::empty(), Seq::empty())
}

pub open spec fn kept_views(es: Seq<Event>) -> Seq<Kept> {
    es.map_values(|e: Event| (e.kind@, e.date@, e.body@))
}

pub open spec fn refused_views(ds: Seq<Dropped>) -> Seq<Refused> {
    ds.map_values(|d: Dropped| (d.kind@, d.date@, d.head@, d.tokens as int, d.why@))
}

/// Fills the packet's recent events, newest first as they come, within the
/// budget: what is kept is summarised, what is refused is counted and
/// named with the reason.
pub fn fill_recent(packet: &mut Packet, recent: Vec<crate::db::RecentEvent>, beyond_window: usize, budget: usize)
    requires
        old(packet).events_omitted + recent.len() <= usize::MAX,
    ensures
        ({
            let run = spend_all(first_spending(*old(packet), budget as int), budget as int, recent@);
            &&& kept_views(final(packet).events@) == kept_views(old(packet).events@) + run.2
            &&& refused_views(final(packet).dropped@) == refused_views(old(packet).dropped@) + run.3
            &&& final(packet).events_omitted == old(packet).events_omitted + run.3.len()
        }),
        final(packet).events_beyond_window == beyond_window,
        final(packet).project == old(packet).project,
        final(packet).state == old(packet).state,
        final(packet).current == old(packet).current,
        final(packet).questions == old(packet).questions,
        final(packet).wishes == old(packet).wishes,
        final(packet).documents == old(packet).documents,
        final(packet).next_step == old(packet).next_step,
{
    let ghost start = *packet;
    let text = packet_chars(packet);
    let reserve = chars_of("\n## Recent\n(999 left out by the budget; 999 older than the window)\n");
    proof {
        reveal_strlit("\n## Recent\n(999 left out by the budget; 999 older than the window)\n");
    }
    let r = tokens_of(&reserve);
    assert(r == 17);
    let t = tokens_of(&text);
    let mut spent: usize = t + r;
    packet.events_beyond_window = beyond_window;
    let mut git_left: usize = if budget > spent {
        budget - spent
    } else {
        0
    } / 4;
    let ghost first = first_spending(start, budget as int);
    assert(first.0 == spent && first.1 == git_left);
    for i in 0..recent.len()
        invariant
            ({
                let run = spend_all(first, budget as int, recent@.take(i as int));
                &&& run.0 == spent
                &&& run.1 == git_left
                &&& kept_views(packet.events@) == kept_views(start.events@) + run.2
                &&& refused_views(packet.dropped@) == refused_views(start.dropped@) + run.3
                &&& packet.events_omitted == start.events_omitted + run.3.len()
                &&& run.3.len() <= i
            }),
            start.events_omitted + recent.len() <= usize::MAX,
            packet.events_beyond_window == beyond_window,
            packet.project == start.project,
            packet.state == start.state,
            packet.current == start.current,
            packet.questions == start.questions,
            packet.wishes == start.wishes,
            packet.documents == start.documents,
            packet.next_step == start.next_step,
    {
        assert(recent@.take(i + 1).drop_last() =~= recent@.take(i as int));
        let ghost before = spend_all(first, budget as int, recent@.take(i as int));
        let r = &recent[i];
        let body = summarise(r.body.as_str());
        let event = Event { kind: r.kind.clone(), date: r.date.clone(), body };
        let line = event_of(&event);
        let cost = tokens_of(&line);
        let over = cost > budget || spent > budget - cost;
        if over || (r.from_git && cost > git_left) {
            let why: &'static str = if over {
                "over the budget"
            } else {
                "the chronicle's share of the budget is spent"
            };
            let head_line = head_of(&event.body);
            let ghost kv = refused_views(packet.dropped@);
            packet.events_omitted = packet.events_omitted + 1;
            packet.dropped.push(
                Dropped { kind: event.kind, date: event.date, head: text_of(&head_line), tokens: cost, why },
            );
            assert(refused_views(packet.dropped@) =~= kv.push(refused_views(packet.dropped@).last()));
        } else {
            if r.from_git {
                git_left = git_left - cost;
            }
            spent = spent + cost;
            let ghost kv = kept_views(packet.events@);
            packet.events.push(event);
            assert(kept_views(packet.events@) =~= kv.push(kept_views(packet.events@).last()));
        }
    }
    assert(recent@.take(recent.len() as int) =~= recent@);
}

/// Filling never takes the packet over its budget nor the chronicle past
/// its share, every event offered is either kept or named as refused, and a
/// packet that starts over its budget keeps nothing.
pub proof fn law_budget_holds(b: Spending, budget: int, rs: Seq<crate::db::RecentEvent>)
    requires
        b.1 >= 0,
    ensures
        ({
            let run = spend_all(b, budget, rs);
            &&& b.0 <= budget ==> run.0 <= budget
            &&& run.0 >= b.0
            &&& 0 <= run.1 <= b.1
            &&& run.2.len() + run.3.len() == b.2.len() + b.3.len() + rs.len()
            &&& b.0 > budget ==> run.2 == b.2
        }),
    decreases rs.len(),
{
    if rs.len() > 0 {
        law_budget_holds(b, budget, rs.drop_last());
    }
}


/// The packet without its recent section: what stands before it and what
/// follows it.
pub open spec fn head_text(p: Packet) -> Seq<char> {
    state_text(p) + match p.current {
        Some(st) => stage_text(st),
        None => Seq::empty(),
    } + items_text("Waiting for the owner"@, p.questions@) + items_text("Wishes, not yet sorted"@, p.wishes@)
}

pub open spec fn tail_text(p: Packet) -> Seq<char> {
    documents_text(p) + next_text(p)
}

/// What a packet costs before any recent event is added: everything but
/// the recent section, and the reserve.
pub open spec fn bare_spent(p: Packet) -> int {
    (tokens_for(head_text(p) + tail_text(p)) + tokens_for(reserve_text())) as int
}

/// What a kept event costs.
pub open spec fn kept_costs(ks: Seq<Kept>) -> nat
    decreases ks.len(),
{
    if ks.len() == 0 {
        0
    } else {
        kept_costs(ks.drop_last()) + tokens_for(event_line(ks.last().1, ks.last().0, ks.last().2))
    }
}

proof fn lemma_tokens_split(x: Seq<char>, y: Seq<char>, z: Seq<char>)
    requires
        x.len() == y.len() + z.len(),
    ensures
        tokens_for(x) <= tokens_for(y) + tokens_for(z),
{
    let a = y.len() as int;
    let b = z.len() as int;
    assert((a + b + 3) / 4 <= (a + 3) / 4 + (b + 3) / 4) by (nonlinear_arith)
        requires
            a >= 0,
            b >= 0,
    ;
}

proof fn lemma_spent_is_costs(b: Spending, budget: int, rs: Seq<crate::db::RecentEvent>)
    ensures
        spend_all(b, budget, rs).0 - kept_costs(spend_all(b, budget, rs).2) == b.0 - kept_costs(b.2),
    decreases rs.len(),
{
    if rs.len() > 0 {
        lemma_spent_is_costs(b, budget, rs.drop_last());
        let c = spend_all(b, budget, rs.drop_last());
        let n = spend_all(b, budget, rs);
        if n.2.len() > c.2.len() {
            assert(n.2.drop_last() =~= c.2);
        }
    }
}

proof fn lemma_events_cost(es: Seq<Event>)
    ensures
        tokens_for(events_text(es)) <= kept_costs(kept_views(es)),
    decreases es.len(),
{
    if es.len() > 0 {
        lemma_events_cost(es.drop_last());
        assert(kept_views(es).drop_last() =~= kept_views(es.drop_last()));
        lemma_tokens_split(events_text(es), events_text(es.drop_last()), event_text(es.last()));
    } else {
        assert(events_text(es) =~= Seq::<char>::empty());
    }
}

/// The facts a packet is built from, as the record gives them: the
/// project's name, state, current stage, open questions and wishes, its
/// documents and the next step, its recent events newest first, and how
/// many older ones lie beyond the window.
pub struct PacketFacts {
    pub project: String,
    pub state: State,
    pub current: Option<Stage>,
    pub questions: Vec<Item>,
    pub wishes: Vec<Item>,
    pub documents: Vec<DocLine>,
    pub next_step: Option<String>,
    pub recent: Vec<crate::db::RecentEvent>,
    pub beyond_window: usize,
}

/// Builds the packet: everything a session cannot start without, then the
/// recent events, newest first, as far as the budget goes.
///
/// The budget counts what is kept against a reserve for the heading and
/// the line on what was left out. When nothing is left out that line is
/// empty and the packet stays within the budget; when something is, the
/// line can cost more than the reserve, and the packet is over the budget
/// by at most what the line costs beyond it.
pub fn build_packet(facts: PacketFacts, budget: usize) -> (r: Packet)
    ensures
        r.project == facts.project,
        r.state == facts.state,
        r.current == facts.current,
        r.questions == facts.questions,
        r.wishes == facts.wishes,
        r.documents == facts.documents,
        r.next_step == facts.next_step,
        r.events_beyond_window == facts.beyond_window,
        ({
            let spent = bare_spent(r);
            let run = spend_all(
                (spent, (if budget > spent { budget - spent } else { 0 }) / 4, Seq::empty(), Seq::empty()),
                budget as int,
                facts.recent@,
            );
            &&& kept_views(r.events@) == run.2
            &&& refused_views(r.dropped@) == run.3
            &&& r.events_omitted == run.3.len()
        }),
        bare_spent(r) <= budget ==> tokens_for(packet_text(r)) + 14 <= budget + tokens_for(
            left_out_note(r.events_omitted as nat, r.events_beyond_window as nat),
        ),
        bare_spent(r) > budget ==> r.events@.len() == 0,
{
    let mut packet = Packet {
        project: facts.project,
        state: facts.state,
        current: facts.current,
        questions: facts.questions,
        wishes: facts.wishes,
        events: Vec::new(),
        documents: facts.documents,
        next_step: facts.next_step,
        events_omitted: 0,
        events_beyond_window: 0,
        dropped: Vec::new(),
    };
    assert(packet_text(packet) =~= head_text(packet) + tail_text(packet));
    let ghost start = packet;
    let ghost recent = facts.recent@;
    fill_recent(&mut packet, facts.recent, facts.beyond_window, budget);
    proof {
        reveal_strlit("\n## Recent\n(999 left out by the budget; 999 older than the window)\n");
        reveal_strlit("\n## Recent\n");
        let first = first_spending(start, budget as int);
        let run = spend_all(first, budget as int, recent);
        assert(kept_views(start.events@) =~= Seq::<Kept>::empty());
        assert(kept_views(packet.events@) =~= run.2);
        law_budget_holds(first, budget as int, recent);
        lemma_spent_is_costs(first, budget as int, recent);
        assert(kept_costs(first.2) == 0);
        lemma_events_cost(packet.events@);
        let h = head_text(packet);
        let t = tail_text(packet);
        let rt = recent_text(packet);
        assert(packet_text(packet) =~= h + rt + t);
        lemma_tokens_split(packet_text(packet), h + t, rt);
        if packet.events.len() > 0 || packet.events_omitted > 0 {
            let note = left_out_note(packet.events_omitted as nat, packet.events_beyond_window as nat);
            let ev = events_text(packet.events@);
            assert(rt =~= "\n## Recent\n"@ + ev + note);
            lemma_tokens_split(rt, "\n## Recent\n"@, ev + note);
            lemma_tokens_split(ev + note, ev, note);
            assert(tokens_for("\n## Recent\n"@) == 3);
        } else {
            assert(rt =~= Seq::<char>::empty());
        }
        assert(tokens_for(reserve_text()) == 17);
    }
    packet
}

} // verus!
