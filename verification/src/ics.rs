//! The calendar as a file a phone can subscribe to: iCalendar (RFC 5545),
//! a whole-day event on each release's Friday and one spanning Monday to
//! Friday for each week's focus. Each event's `UID` is made of what it is
//! about, so importing the file twice updates rather than doubles.
use vstd::prelude::*;
use jiff::civil::Date;
use crate::calendar::{day_text, friday_of, is_civil, month_days, monday_of, week_text, Day, Week};
use crate::text::{joined, append, append_str, chars_of, chars_of_string, is_alnum, text_of, utf8_len, utf8_width, width_of};

verus! {

/// A second since the epoch written out in UTC by a `strftime` format,
/// as jiff's `Timestamp::strftime` writes it. It depends on the second and
/// the format alone: no time zone enters.
pub uninterp spec fn utc_strftime(seconds: i64, format: Seq<char>) -> Seq<char>;

/// `Timestamp::from_second`, then `Timestamp::strftime` with `format`.
/// Nothing is said of the text but that it is jiff's for that second and
/// format; jiff documents that `strftime` never fails, reading a malformed
/// format leniently. A second jiff cannot hold gives an empty text, which
/// the range the `requires` admits keeps to the edges of jiff's own.
#[verifier::external_body]
fn strftime_at(seconds: i64, format: &str) -> (r: String)
    requires
        crate::moment::in_time(seconds as int),
    ensures
        r@ == utc_strftime(seconds, format@),
{
    match jiff::Timestamp::from_second(seconds) {
        Ok(t) => t.strftime(format).to_string(),
        Err(_) => String::new(),
    }
}

/// The format `DTSTAMP` takes: a UTC moment to the second, such as
/// `20260922T101500Z`.
pub open spec fn dtstamp_format() -> Seq<char> {
    "%Y%m%dT%H%M%SZ"@
}

/// The moment in the form `DTSTAMP` takes.
pub fn stamp(seconds: i64) -> (r: String)
    requires
        crate::moment::in_time(seconds as int),
    ensures
        r@ == utc_strftime(seconds, dtstamp_format()),
{
    strftime_at(seconds, "%Y%m%dT%H%M%SZ")
}

/// The day after, while jiff can hold it.
pub open spec fn next_day(d: Day) -> Option<Day> {
    if d.day < month_days(d.year as int, d.month as int) {
        Some(Day { year: d.year, month: d.month, day: (d.day + 1) as i8 })
    } else if d.month < 12 {
        Some(Day { year: d.year, month: (d.month + 1) as i8, day: 1 })
    } else if d.year < 9999 {
        Some(Day { year: (d.year + 1) as i16, month: 1, day: 1 })
    } else {
        None
    }
}

/// `Date::tomorrow`, which fails only past the last day jiff can hold.
#[verifier::external_body]
fn tomorrow(d: Day) -> (r: Option<Day>)
    requires
        is_civil(d),
    ensures
        r == next_day(d),
{
    match Date::constant(d.year, d.month, d.day).tomorrow() {
        Ok(t) => Some(Day { year: t.year(), month: t.month(), day: t.day() }),
        Err(_) => None,
    }
}

/// A version aimed at a Friday.
#[derive(Debug, Clone)]
pub struct Release {
    pub project: String,
    pub version: String,
    pub title: Option<String>,
    pub week: Week,
}

/// What one week is for: the versions aimed at it, by project.
#[derive(Debug, Clone)]
pub struct Focus {
    pub week: Week,
    pub items: Vec<String>,
}

/// A character a `UID` may carry as it is.
pub open spec fn uid_char(c: char) -> bool {
    is_alnum(c) || c == '.' || c == '-'
}

/// A piece of a `UID`: letters, digits, dots and dashes kept, anything else
/// made an underscore.
pub open spec fn uid_text(s: Seq<char>) -> Seq<char> {
    s.map_values(|c: char| if uid_char(c) { c } else { '_' })
}

pub fn uid_part(text: &str) -> (r: Vec<char>)
    ensures
        r@ == uid_text(text@),
{
    let s = chars_of(text);
    let mut out: Vec<char> = Vec::new();
    for i in 0..s.len()
        invariant
            out@ == uid_text(s@.take(i as int)),
    {
        let c = s[i];
        out.push(if crate::text::alnum(c) || c == '.' || c == '-' { c } else { '_' });
        assert(uid_text(s@.take(i + 1)) =~= uid_text(s@.take(i as int)).push(if uid_char(c) { c } else { '_' }));
    }
    assert(s@.take(s.len() as int) =~= s@);
    out
}

/// What one character becomes in a property value.
pub open spec fn escaped_char(c: char) -> Seq<char> {
    if c == '\\' {
        seq!['\\', '\\']
    } else if c == ';' {
        seq!['\\', ';']
    } else if c == ',' {
        seq!['\\', ',']
    } else if c == '\n' {
        seq!['\\', 'n']
    } else if c == '\r' {
        Seq::empty()
    } else {
        seq![c]
    }
}

/// Text as a property value: backslash, semicolon and comma escaped, a line
/// break written as `\n`, a carriage return dropped.
pub open spec fn escaped(s: Seq<char>) -> Seq<char>
    decreases s.len(),
{
    if s.len() == 0 {
        Seq::empty()
    } else {
        escaped(s.drop_last()) + escaped_char(s.last())
    }
}

pub fn escape(text: &Vec<char>) -> (r: Vec<char>)
    ensures
        r@ == escaped(text@),
{
    let mut out: Vec<char> = Vec::new();
    for i in 0..text.len()
        invariant
            out@ == escaped(text@.take(i as int)),
    {
        assert(text@.take(i + 1).drop_last() =~= text@.take(i as int));
        let c = text[i];
        let ghost before = out@;
        if c == '\\' {
            out.push('\\');
            out.push('\\');
        } else if c == ';' {
            out.push('\\');
            out.push(';');
        } else if c == ',' {
            out.push('\\');
            out.push(',');
        } else if c == '\n' {
            out.push('\\');
            out.push('n');
        } else if c == '\r' {
        } else {
            out.push(c);
        }
        assert(out@ =~= before + escaped_char(c));
    }
    assert(text@.take(text.len() as int) =~= text@);
    out
}

/// The most octets a line of the file may take.
pub open spec fn line_limit() -> int {
    75
}

/// The octets a piece of a folded line takes: a continuation line counts
/// the space that marks it.
pub open spec fn piece_octets(ps: Seq<Seq<char>>, i: int) -> int {
    utf8_len(ps[i]) + if i > 0 {
        1int
    } else {
        0int
    }
}

/// A line cut into the pieces it is folded into: each character goes on
/// the current piece unless that would take it past 75 octets, when it
/// starts the next one.
pub open spec fn fold_pieces(s: Seq<char>) -> Seq<Seq<char>>
    decreases s.len(),
{
    if s.len() == 0 {
        seq![Seq::empty()]
    } else {
        let ps = fold_pieces(s.drop_last());
        let c = s.last();
        if piece_octets(ps, ps.len() - 1) + utf8_width(c) > line_limit() {
            ps.push(seq![c])
        } else {
            ps.update(ps.len() - 1, ps.last().push(c))
        }
    }
}

/// A line folded at 75 octets, between characters, the rest continuing
/// after a line break and a single space; left alone when it fits.
pub open spec fn folded(s: Seq<char>) -> Seq<char> {
    if utf8_len(s) <= line_limit() {
        s
    } else {
        joined(fold_pieces(s), seq!['\r', '\n', ' '])
    }
}

pub open spec fn flattened(ps: Seq<Seq<char>>) -> Seq<char>
    decreases ps.len(),
{
    if ps.len() == 0 {
        Seq::empty()
    } else {
        flattened(ps.drop_last()) + ps.last()
    }
}

proof fn lemma_utf8_push(s: Seq<char>, c: char)
    ensures
        utf8_len(s.push(c)) == utf8_len(s) + utf8_width(c),
        utf8_len(seq![c]) == utf8_width(c),
{
    assert(s.push(c).drop_last() =~= s);
    assert(seq![c].drop_last() =~= Seq::<char>::empty());
    assert(utf8_len(Seq::<char>::empty()) == 0);
}

proof fn lemma_flatten_update(ps: Seq<Seq<char>>, c: char)
    requires
        ps.len() > 0,
    ensures
        flattened(ps.update(ps.len() - 1, ps.last().push(c))) == flattened(ps).push(c),
{
    let qs = ps.update(ps.len() - 1, ps.last().push(c));
    assert(qs.drop_last() =~= ps.drop_last());
}

proof fn lemma_join_update(ps: Seq<Seq<char>>, c: char, sep: Seq<char>)
    requires
        ps.len() > 0,
    ensures
        joined(ps.update(ps.len() - 1, ps.last().push(c)), sep) == joined(ps, sep).push(c),
{
    let qs = ps.update(ps.len() - 1, ps.last().push(c));
    assert(qs.drop_last() =~= ps.drop_last());
    if ps.len() > 1 {
        assert(joined(qs, sep) =~= joined(ps, sep).push(c));
    }
}

/// Folding loses nothing and keeps every line of the file within 75 octets:
/// the pieces put back together are the line, and each piece, with the
/// space that opens a continuation, takes at most 75.
pub proof fn law_folding_keeps_the_line(s: Seq<char>)
    ensures
        flattened(fold_pieces(s)) == s,
        fold_pieces(s).len() >= 1,
        forall|i: int| 0 <= i < fold_pieces(s).len() ==> piece_octets(fold_pieces(s), i) <= line_limit(),
    decreases s.len(),
{
    if s.len() > 0 {
        let t = s.drop_last();
        law_folding_keeps_the_line(t);
        let ps = fold_pieces(t);
        let c = s.last();
        if piece_octets(ps, ps.len() - 1) + utf8_width(c) > line_limit() {
            let qs = ps.push(seq![c]);
            assert(qs.drop_last() =~= ps);
            lemma_utf8_push(ps.last(), c);
            assert forall|i: int| 0 <= i < qs.len() implies piece_octets(qs, i) <= line_limit() by {
                if i < ps.len() {
                    assert(qs[i] == ps[i]);
                    assert(piece_octets(ps, i) <= line_limit());
                } else {
                    assert(qs[i] == seq![c]);
                }
            }
            assert(flattened(qs) == flattened(ps) + seq![c]);
            assert(s =~= t + seq![c]);
            assert(fold_pieces(s) == qs);
        } else {
            lemma_flatten_update(ps, c);
            lemma_utf8_push(ps.last(), c);
            let qs = ps.update(ps.len() - 1, ps.last().push(c));
            assert(ps.last().push(c).drop_last() =~= ps.last());
            assert forall|i: int| 0 <= i < qs.len() implies piece_octets(qs, i) <= line_limit() by {
                if i < ps.len() - 1 {
                    assert(qs[i] == ps[i]);
                    assert(piece_octets(ps, i) <= line_limit());
                } else {
                    assert(qs[i] == ps.last().push(c));
                }
            }
            assert(s =~= t.push(c));
            assert(fold_pieces(s) == qs);
        }
    } else {
        let e = seq![Seq::<char>::empty()];
        assert(e.drop_last() =~= Seq::<Seq<char>>::empty());
        assert(flattened(e) == flattened(e.drop_last()) + e.last());
        assert(flattened(e) =~= s);
    }
}

/// A folded line read back the way RFC 5545 unfolds it: every line break
/// followed by a space is taken out.
pub open spec fn unfolded(t: Seq<char>) -> Seq<char>
    decreases t.len(),
{
    if t.len() == 0 {
        Seq::empty()
    } else if t.len() >= 3 && t[0] == '\r' && t[1] == '\n' && t[2] == ' ' {
        unfolded(t.skip(3))
    } else {
        seq![t[0]] + unfolded(t.skip(1))
    }
}

/// Whether a text holds neither a carriage return nor a line feed.
pub open spec fn one_line(s: Seq<char>) -> bool {
    forall|i: int| 0 <= i < s.len() ==> #[trigger] s[i] != '\r' && s[i] != '\n'
}

proof fn lemma_unfold_plain_front(a: Seq<char>, b: Seq<char>)
    requires
        one_line(a),
    ensures
        unfolded(a + b) == a + unfolded(b),
    decreases a.len(),
{
    if a.len() == 0 {
        assert(a + b =~= b);
        assert(a + unfolded(b) =~= unfolded(b));
    } else {
        assert((a + b)[0] == a[0]);
        assert((a + b).skip(1) =~= a.skip(1) + b);
        lemma_unfold_plain_front(a.skip(1), b);
        assert(seq![a[0]] + (a.skip(1) + unfolded(b)) =~= a + unfolded(b));
    }
}

proof fn lemma_joined_front(ps: Seq<Seq<char>>, sep: Seq<char>)
    requires
        ps.len() >= 2,
    ensures
        joined(ps, sep) == ps[0] + sep + joined(ps.drop_first(), sep),
    decreases ps.len(),
{
    if ps.len() == 2 {
        assert(ps.drop_last().len() == 1);
        assert(ps.drop_first().len() == 1);
        assert(joined(ps.drop_last(), sep) == ps[0]);
        assert(joined(ps.drop_first(), sep) == ps[1]);
        assert(joined(ps, sep) == joined(ps.drop_last(), sep) + sep + ps.last());
    } else {
        lemma_joined_front(ps.drop_last(), sep);
        assert(ps.drop_first().drop_last() =~= ps.drop_last().drop_first());
        assert(ps.drop_first().last() == ps.last());
        assert(joined(ps, sep) =~= ps[0] + sep + joined(ps.drop_first(), sep));
    }
}

proof fn lemma_flattened_front(ps: Seq<Seq<char>>)
    requires
        ps.len() >= 1,
    ensures
        flattened(ps) == ps[0] + flattened(ps.drop_first()),
    decreases ps.len(),
{
    if ps.len() == 1 {
        assert(ps.drop_last() =~= Seq::<Seq<char>>::empty());
        assert(ps.drop_first() =~= Seq::<Seq<char>>::empty());
        assert(flattened(ps) =~= ps[0] + flattened(ps.drop_first()));
    } else {
        lemma_flattened_front(ps.drop_last());
        assert(ps.drop_first().drop_last() =~= ps.drop_last().drop_first());
        assert(ps.drop_first().last() == ps.last());
        assert(flattened(ps) =~= ps[0] + flattened(ps.drop_first()));
    }
}

proof fn lemma_unfold_joined(ps: Seq<Seq<char>>)
    requires
        ps.len() >= 1,
        forall|i: int| 0 <= i < ps.len() ==> one_line(#[trigger] ps[i]),
    ensures
        unfolded(joined(ps, seq!['\r', '\n', ' '])) == flattened(ps),
    decreases ps.len(),
{
    let sep = seq!['\r', '\n', ' '];
    if ps.len() == 1 {
        lemma_flattened_front(ps);
        assert(ps.drop_first() =~= Seq::<Seq<char>>::empty());
        assert(ps[0] + flattened(ps.drop_first()) =~= ps[0]);
        lemma_unfold_plain_front(ps[0], Seq::empty());
        assert(ps[0] + Seq::<char>::empty() =~= ps[0]);
    } else {
        lemma_joined_front(ps, sep);
        lemma_flattened_front(ps);
        let rest = joined(ps.drop_first(), sep);
        assert(forall|i: int| 0 <= i < ps.drop_first().len() ==> #[trigger] ps.drop_first()[i] == ps[i + 1]);
        lemma_unfold_joined(ps.drop_first());
        assert(ps[0] + sep + rest =~= ps[0] + (sep + rest));
        lemma_unfold_plain_front(ps[0], sep + rest);
        assert((sep + rest).skip(3) =~= rest);
    }
}

proof fn lemma_pieces_one_line(s: Seq<char>)
    requires
        one_line(s),
    ensures
        forall|i: int| 0 <= i < fold_pieces(s).len() ==> one_line(#[trigger] fold_pieces(s)[i]),
    decreases s.len(),
{
    if s.len() > 0 {
        let t = s.drop_last();
        assert forall|i: int| 0 <= i < t.len() implies #[trigger] t[i] != '\r' && t[i] != '\n' by {
            assert(t[i] == s[i]);
        }
        lemma_pieces_one_line(t);
        law_folding_keeps_the_line(t);
        let ps = fold_pieces(t);
        let c = s.last();
        assert(c == s[s.len() - 1]);
        assert forall|i: int| 0 <= i < fold_pieces(s).len() implies one_line(#[trigger] fold_pieces(s)[i]) by {
            if piece_octets(ps, ps.len() - 1) + utf8_width(c) > line_limit() {
                if i < ps.len() {
                    assert(fold_pieces(s)[i] == ps[i]);
                } else {
                    assert(fold_pieces(s)[i] == seq![c]);
                }
            } else {
                if i < ps.len() - 1 {
                    assert(fold_pieces(s)[i] == ps[i]);
                } else {
                    let p = ps.last().push(c);
                    assert(fold_pieces(s)[i] == p);
                    assert(one_line(ps[ps.len() - 1]));
                    assert forall|j: int| 0 <= j < p.len() implies #[trigger] p[j] != '\r' && p[j] != '\n' by {
                        if j < ps.last().len() {
                            assert(p[j] == ps.last()[j]);
                        }
                    }
                }
            }
        }
    }
}

/// A line of the file with no line break in it is read back whole: a line
/// that fits is written as it is, and unfolding a folded one gives the
/// line back.
pub proof fn law_unfolding_gives_the_line(s: Seq<char>)
    requires
        one_line(s),
    ensures
        utf8_len(s) <= line_limit() ==> folded(s) == s,
        unfolded(folded(s)) == s,
{
    if utf8_len(s) <= line_limit() {
        lemma_unfold_plain_front(s, Seq::empty());
        assert(s + Seq::<char>::empty() =~= s);
        assert(s + unfolded(Seq::<char>::empty()) =~= s);
    } else {
        law_folding_keeps_the_line(s);
        lemma_pieces_one_line(s);
        lemma_unfold_joined(fold_pieces(s));
    }
}

pub fn fold(line: &Vec<char>) -> (r: Vec<char>)
    ensures
        r@ == folded(line@),
{
    let n = line.len();
    let mut bytes: usize = 0;
    let mut i: usize = 0;
    while i < n
        invariant
            n == line.len(),
            i <= n,
            bytes <= 76,
            bytes <= line_limit() ==> bytes == utf8_len(line@.take(i as int)),
            bytes > line_limit() ==> utf8_len(line@.take(i as int)) > line_limit(),
        decreases n - i,
    {
        assert(line@.take(i + 1).drop_last() =~= line@.take(i as int));
        if bytes <= 75 {
            let w = width_of(line[i]);
            bytes = if bytes + w > 75 {
                76
            } else {
                bytes + w
            };
        }
        i = i + 1;
    }
    assert(line@.take(n as int) =~= line@);
    if bytes <= 75 {
        return crate::text::slice(line, 0, n);
    }
    let mut out: Vec<char> = Vec::new();
    let mut width: usize = 0;
    for k in 0..n
        invariant
            n == line.len(),
            out@ == joined(fold_pieces(line@.take(k as int)), seq!['\r', '\n', ' ']),
            width == piece_octets(fold_pieces(line@.take(k as int)), fold_pieces(line@.take(k as int)).len() - 1),
            width <= 75,
    {
        let ghost t = line@.take(k as int);
        assert(line@.take(k + 1).drop_last() =~= t);
        proof {
            law_folding_keeps_the_line(t);
        }
        let c = line[k];
        let w = width_of(c);
        let ghost ps = fold_pieces(t);
        proof {
            lemma_utf8_push(ps.last(), c);
        }
        if width + w > 75 {
            out.push('\r');
            out.push('\n');
            out.push(' ');
            out.push(c);
            width = 1 + w;
            proof {
                let qs = ps.push(seq![c]);
                assert(qs.drop_last() =~= ps);
                assert(joined(qs, seq!['\r', '\n', ' ']) =~= joined(ps, seq!['\r', '\n', ' ']) + seq!['\r', '\n', ' '] + seq![c]);
                assert(seq![c].drop_last() =~= Seq::<char>::empty());
            }
        } else {
            out.push(c);
            width = width + w;
            proof {
                lemma_join_update(ps, c, seq!['\r', '\n', ' ']);
                assert(ps.last().push(c).drop_last() =~= ps.last());
            }
        }
    }
    out
}

/// A day as the format writes one: `20260925`.
pub open spec fn basic(d: Day) -> Seq<char> {
    without_dashes(day_text(d))
}

pub open spec fn without_dashes(s: Seq<char>) -> Seq<char>
    decreases s.len(),
{
    if s.len() == 0 {
        s
    } else if s.last() == '-' {
        without_dashes(s.drop_last())
    } else {
        without_dashes(s.drop_last()).push(s.last())
    }
}

fn basic_of(d: Day) -> (r: Vec<char>)
    ensures
        r@ == basic(d),
{
    let t = d.to_text();
    let s = chars_of_string(&t);
    let mut out: Vec<char> = Vec::new();
    for i in 0..s.len()
        invariant
            out@ == without_dashes(s@.take(i as int)),
    {
        assert(s@.take(i + 1).drop_last() =~= s@.take(i as int));
        if s[i] != '-' {
            out.push(s[i]);
        }
    }
    assert(s@.take(s.len() as int) =~= s@);
    out
}

/// The lines of one whole-day event.
pub open spec fn event_lines(uid: Seq<char>, stamp: Seq<char>, start: Day, end: Day, summary: Seq<char>, description: Seq<char>) -> Seq<Seq<char>> {
    seq![
        "BEGIN:VEVENT"@,
        "UID:"@ + uid,
        "DTSTAMP:"@ + stamp,
        "DTSTART;VALUE=DATE:"@ + basic(start),
        "DTEND;VALUE=DATE:"@ + basic(end),
        "SUMMARY:"@ + escaped(summary),
        "DESCRIPTION:"@ + escaped(description),
        "TRANSP:TRANSPARENT"@,
        "END:VEVENT"@,
    ]
}

fn line_of(a: &str, b: &Vec<char>) -> (r: Vec<char>)
    ensures
        r@ == a@ + b@,
{
    let mut out = chars_of(a);
    append(&mut out, b);
    out
}

fn push_event(lines: &mut Vec<Vec<char>>, uid: &Vec<char>, stamp: &Vec<char>, start: Day, end: Day, summary: &Vec<char>, description: &Vec<char>)
    ensures
        crate::text::views(final(lines)@) == crate::text::views(old(lines)@) + event_lines(uid@, stamp@, start, end, summary@, description@),
{
    let ghost before = crate::text::views(lines@);
    lines.push(chars_of("BEGIN:VEVENT"));
    lines.push(line_of("UID:", uid));
    lines.push(line_of("DTSTAMP:", stamp));
    lines.push(line_of("DTSTART;VALUE=DATE:", &basic_of(start)));
    lines.push(line_of("DTEND;VALUE=DATE:", &basic_of(end)));
    lines.push(line_of("SUMMARY:", &escape(summary)));
    lines.push(line_of("DESCRIPTION:", &escape(description)));
    lines.push(chars_of("TRANSP:TRANSPARENT"));
    lines.push(chars_of("END:VEVENT"));
    assert(crate::text::views(lines@) =~= before + event_lines(uid@, stamp@, start, end, summary@, description@));
}

/// The day after a Friday that closes a whole-day span; the Friday itself
/// when there is no day after.
pub open spec fn end_after(d: Day) -> Day {
    match next_day(d) {
        Some(t) => t,
        None => d,
    }
}

/// What a week's focus is called: its items, or just `Focus` when it has
/// none.
pub open spec fn focus_summary(items: Seq<Seq<char>>) -> Seq<char> {
    if items.len() == 0 {
        "Focus"@
    } else {
        "Focus: "@ + joined(items, ", "@)
    }
}

pub open spec fn focus_event(f: Focus, stamp: Seq<char>) -> Seq<Seq<char>> {
    event_lines(
        "focus-"@ + week_text(f.week) + "@rigger"@,
        stamp,
        monday_of(f.week),
        end_after(friday_of(f.week)),
        focus_summary(crate::text::strings(f.items@)),
        "The week "@ + week_text(f.week) + " - releases on "@ + day_text(friday_of(f.week)),
    )
}

pub open spec fn release_summary(r: Release) -> Seq<char> {
    match r.title {
        Some(t) => r.project@ + " "@ + r.version@ + " · "@ + t@,
        None => r.project@ + " "@ + r.version@,
    }
}

pub open spec fn release_event(r: Release, stamp: Seq<char>) -> Seq<Seq<char>> {
    event_lines(
        "release-"@ + uid_text(r.project@) + "-"@ + uid_text(r.version@) + "@rigger"@,
        stamp,
        friday_of(r.week),
        end_after(friday_of(r.week)),
        release_summary(r),
        "Aimed at "@ + week_text(r.week),
    )
}

pub open spec fn focus_events(fs: Seq<Focus>, stamp: Seq<char>) -> Seq<Seq<char>>
    decreases fs.len(),
{
    if fs.len() == 0 {
        Seq::empty()
    } else {
        focus_events(fs.drop_last(), stamp) + focus_event(fs.last(), stamp)
    }
}

pub open spec fn release_events(rs: Seq<Release>, stamp: Seq<char>) -> Seq<Seq<char>>
    decreases rs.len(),
{
    if rs.len() == 0 {
        Seq::empty()
    } else {
        release_events(rs.drop_last(), stamp) + release_event(rs.last(), stamp)
    }
}

proof fn lemma_release_events_at(rs: Seq<Release>, stamp: Seq<char>, i: int, j: int)
    requires
        0 <= i < rs.len(),
        0 <= j < 9,
    ensures
        release_events(rs, stamp).len() == 9 * rs.len(),
        release_events(rs, stamp)[9 * i + j] == release_event(rs[i], stamp)[j],
    decreases rs.len(),
{
    lemma_release_events_len(rs, stamp);
    let init = rs.drop_last();
    lemma_release_events_len(init, stamp);
    if i < rs.len() - 1 {
        lemma_release_events_at(init, stamp, i, j);
        assert(init[i] == rs[i]);
        assert(9 * i + j < 9 * init.len()) by (nonlinear_arith)
            requires
                i < init.len(),
                j < 9,
        ;
    } else {
        assert(9 * i + j == 9 * init.len() + j);
    }
}

proof fn lemma_release_events_len(rs: Seq<Release>, stamp: Seq<char>)
    ensures
        release_events(rs, stamp).len() == 9 * rs.len(),
    decreases rs.len(),
{
    if rs.len() > 0 {
        lemma_release_events_len(rs.drop_last(), stamp);
    }
}

/// Every line of the file, before folding.
pub open spec fn file_lines(rs: Seq<Release>, fs: Seq<Focus>, stamp: Seq<char>, version: Seq<char>) -> Seq<Seq<char>> {
    seq![
        "BEGIN:VCALENDAR"@,
        "VERSION:2.0"@,
        "PRODID:-//rigger//rigger "@ + version + "//EN"@,
        "CALSCALE:GREGORIAN"@,
        "X-WR-CALNAME:rigger"@,
    ] + focus_events(fs, stamp) + release_events(rs, stamp) + seq!["END:VCALENDAR"@]
}

/// Lines folded, each ending in CRLF.
pub open spec fn written(ls: Seq<Seq<char>>) -> Seq<char>
    decreases ls.len(),
{
    if ls.len() == 0 {
        Seq::empty()
    } else {
        written(ls.drop_last()) + folded(ls.last()) + seq!['\r', '\n']
    }
}

fn focus_summary_of(items: &Vec<String>) -> (r: Vec<char>)
    ensures
        r@ == focus_summary(crate::text::strings(items@)),
{
    if items.len() == 0 {
        return chars_of("Focus");
    }
    let ghost its = crate::text::strings(items@);
    let mut out = chars_of("Focus: ");
    let ghost start = out@;
    for i in 0..items.len()
        invariant
            its == crate::text::strings(items@),
            items.len() > 0,
            i == 0 ==> out@ == start,
            i > 0 ==> out@ == start + joined(its.take(i as int), ", "@),
    {
        assert(its.take(i + 1).drop_last() =~= its.take(i as int));
        assert(its[i as int] == items@[i as int]@);
        if i > 0 {
            append_str(&mut out, ", ");
        }
        let t = chars_of_string(&items[i]);
        append(&mut out, &t);
        proof {
            if i == 0 {
                assert(its.take(1) =~= seq![its[0]]);
            }
        }
    }
    assert(its.take(items.len() as int) =~= its);
    out
}

/// The whole file: a whole-day event on each release's Friday, a Monday to
/// Friday span for each week's focus, every line folded at 75 octets and
/// ended with CRLF. `stamp` is the moment it is written and `version` the
/// version of the program writing it.
#[verifier::rlimit(40)]
pub fn render(releases: &[Release], focus: &[Focus], stamp: &str, version: &str) -> (r: String)
    ensures
        r@ == written(file_lines(releases@, focus@, stamp@, version@)),
{
    let st = chars_of(stamp);
    let mut lines: Vec<Vec<char>> = Vec::new();
    lines.push(chars_of("BEGIN:VCALENDAR"));
    lines.push(chars_of("VERSION:2.0"));
    let mut prod = chars_of("PRODID:-//rigger//rigger ");
    append_str(&mut prod, version);
    append_str(&mut prod, "//EN");
    lines.push(prod);
    lines.push(chars_of("CALSCALE:GREGORIAN"));
    lines.push(chars_of("X-WR-CALNAME:rigger"));
    let ghost head = crate::text::views(lines@);
    assert(head =~= seq![
        "BEGIN:VCALENDAR"@,
        "VERSION:2.0"@,
        "PRODID:-//rigger//rigger "@ + version@ + "//EN"@,
        "CALSCALE:GREGORIAN"@,
        "X-WR-CALNAME:rigger"@,
    ]);
    for i in 0..focus.len()
        invariant
            st@ == stamp@,
            crate::text::views(lines@) == head + focus_events(focus@.take(i as int), stamp@),
    {
        assert(focus@.take(i + 1).drop_last() =~= focus@.take(i as int));
        let f = &focus[i];
        let week = f.week.to_text();
        let wk = chars_of_string(&week);
        let mut uid = chars_of("focus-");
        append(&mut uid, &wk);
        append_str(&mut uid, "@rigger");
        let monday = f.week.monday();
        let friday = f.week.friday();
        let end = match tomorrow(friday) {
            Some(t) => t,
            None => friday,
        };
        let summary = focus_summary_of(&f.items);
        let mut description = chars_of("The week ");
        append(&mut description, &wk);
        append_str(&mut description, " - releases on ");
        let fr = friday.to_text();
        append(&mut description, &chars_of_string(&fr));
        push_event(&mut lines, &uid, &st, monday, end, &summary, &description);
    }
    assert(focus@.take(focus.len() as int) =~= focus@);
    let ghost mid = crate::text::views(lines@);
    for i in 0..releases.len()
        invariant
            st@ == stamp@,
            crate::text::views(lines@) == mid + release_events(releases@.take(i as int), stamp@),
    {
        assert(releases@.take(i + 1).drop_last() =~= releases@.take(i as int));
        let r = &releases[i];
        let mut summary = chars_of_string(&r.project);
        append_str(&mut summary, " ");
        append(&mut summary, &chars_of_string(&r.version));
        match &r.title {
            Some(t) => {
                append_str(&mut summary, " · ");
                append(&mut summary, &chars_of_string(t));
            },
            None => {},
        }
        let friday = r.week.friday();
        let end = match tomorrow(friday) {
            Some(t) => t,
            None => friday,
        };
        let mut uid = chars_of("release-");
        append(&mut uid, &uid_part(r.project.as_str()));
        append_str(&mut uid, "-");
        append(&mut uid, &uid_part(r.version.as_str()));
        append_str(&mut uid, "@rigger");
        let week = r.week.to_text();
        let mut description = chars_of("Aimed at ");
        append(&mut description, &chars_of_string(&week));
        push_event(&mut lines, &uid, &st, friday, end, &summary, &description);
    }
    assert(releases@.take(releases.len() as int) =~= releases@);
    let ghost before_end = crate::text::views(lines@);
    lines.push(chars_of("END:VCALENDAR"));
    let ghost all = crate::text::views(lines@);
    assert(all =~= before_end.push("END:VCALENDAR"@));
    assert(all =~= file_lines(releases@, focus@, stamp@, version@));
    let mut out: Vec<char> = Vec::new();
    for i in 0..lines.len()
        invariant
            all == crate::text::views(lines@),
            out@ == written(all.take(i as int)),
    {
        assert(all.take(i + 1).drop_last() =~= all.take(i as int));
        assert(all[i as int] == lines@[i as int]@);
        let f = fold(&lines[i]);
        append(&mut out, &f);
        out.push('\r');
        out.push('\n');
        assert(out@ =~= written(all.take(i as int)) + folded(all[i as int]) + seq!['\r', '\n']);
    }
    assert(all.take(lines.len() as int) =~= all);
    text_of(&out)
}

/// The whole file as written at a second since the epoch: `render` with
/// that second as its `DTSTAMP`.
pub fn render_at(releases: &[Release], focus: &[Focus], seconds: i64, version: &str) -> (r: String)
    requires
        crate::moment::in_time(seconds as int),
    ensures
        r@ == written(file_lines(releases@, focus@, utc_strftime(seconds, dtstamp_format()), version@)),
{
    let at = stamp(seconds);
    render(releases, focus, at.as_str(), version)
}

proof fn lemma_file_line_of_release(rs: Seq<Release>, fs: Seq<Focus>, stamp: Seq<char>, version: Seq<char>, k: int)
    requires
        0 <= k < release_events(rs, stamp).len(),
    ensures
        0 <= 5 + focus_events(fs, stamp).len() + k < file_lines(rs, fs, stamp, version).len(),
        file_lines(rs, fs, stamp, version)[5 + focus_events(fs, stamp).len() + k] == release_events(rs, stamp)[k],
{
    let t = file_lines(rs, fs, stamp, version);
    let head = seq![
        "BEGIN:VCALENDAR"@,
        "VERSION:2.0"@,
        "PRODID:-//rigger//rigger "@ + version + "//EN"@,
        "CALSCALE:GREGORIAN"@,
        "X-WR-CALNAME:rigger"@,
    ];
    let fe = focus_events(fs, stamp);
    let re = release_events(rs, stamp);
    assert(t == head + fe + re + seq!["END:VCALENDAR"@]);
    assert((head + fe + re)[5 + fe.len() + k] == re[k]);
}

proof fn lemma_summary_line(r: Release, stamp: Seq<char>)
    ensures
        release_event(r, stamp)[5] == "SUMMARY:"@ + escaped(
            r.project@ + " "@ + r.version@ + match r.title {
                Some(t) => " · "@ + t@,
                None => Seq::empty(),
            },
        ),
{
    match r.title {
        Some(t) => assert(release_summary(r) =~= r.project@ + " "@ + r.version@ + (" · "@ + t@)),
        None => assert(release_summary(r) =~= r.project@ + " "@ + r.version@ + Seq::<char>::empty()),
    }
}

/// Every release has its event in the file, and the event's summary names
/// the project and the version, with the title after them when there is one.
pub proof fn law_each_release_is_summarised_by_project_and_version(
    rs: Seq<Release>,
    fs: Seq<Focus>,
    stamp: Seq<char>,
    version: Seq<char>,
    i: int,
)
    requires
        0 <= i < rs.len(),
    ensures
        0 <= 5 + focus_events(fs, stamp).len() + 9 * i + 5 < file_lines(rs, fs, stamp, version).len(),
        file_lines(rs, fs, stamp, version)[5 + focus_events(fs, stamp).len() + 9 * i + 5] == "SUMMARY:"@ + escaped(
            rs[i].project@ + " "@ + rs[i].version@ + match rs[i].title {
                Some(t) => " · "@ + t@,
                None => Seq::empty(),
            },
        ),
{
    lemma_release_events_at(rs, stamp, i, 5);
    assert(9 * i + 5 < 9 * rs.len()) by (nonlinear_arith)
        requires
            i < rs.len(),
    ;
    lemma_file_line_of_release(rs, fs, stamp, version, 9 * i + 5);
    lemma_summary_line(rs[i], stamp);
}

/// Every release's event in the file falls on the Friday of the week it is
/// aimed at, lasts that one day, and says which week that is.
pub proof fn law_each_release_falls_on_the_friday_of_its_week(
    rs: Seq<Release>,
    fs: Seq<Focus>,
    stamp: Seq<char>,
    version: Seq<char>,
    i: int,
)
    requires
        0 <= i < rs.len(),
    ensures
        ({
            let at = 5 + focus_events(fs, stamp).len() + 9 * i;
            let t = file_lines(rs, fs, stamp, version);
            &&& 0 <= at && at + 8 < t.len()
            &&& t[at] == "BEGIN:VEVENT"@
            &&& t[at + 3] == "DTSTART;VALUE=DATE:"@ + basic(friday_of(rs[i].week))
            &&& t[at + 4] == "DTEND;VALUE=DATE:"@ + basic(end_after(friday_of(rs[i].week)))
            &&& t[at + 6] == "DESCRIPTION:"@ + escaped("Aimed at "@ + week_text(rs[i].week))
            &&& t[at + 8] == "END:VEVENT"@
        }),
{
    let base = 9 * i;
    assert(base + 8 < 9 * rs.len()) by (nonlinear_arith)
        requires
            i < rs.len(),
            base == 9 * i,
    ;
    lemma_release_events_at(rs, stamp, i, 0);
    lemma_release_events_at(rs, stamp, i, 3);
    lemma_release_events_at(rs, stamp, i, 4);
    lemma_release_events_at(rs, stamp, i, 6);
    lemma_release_events_at(rs, stamp, i, 8);
    lemma_file_line_of_release(rs, fs, stamp, version, base);
    lemma_file_line_of_release(rs, fs, stamp, version, base + 3);
    lemma_file_line_of_release(rs, fs, stamp, version, base + 4);
    lemma_file_line_of_release(rs, fs, stamp, version, base + 6);
    lemma_file_line_of_release(rs, fs, stamp, version, base + 8);
}

} // verus!
