//! What the record holds, as plain values, and the rules the record applies
//! to text before it stores it: how versions sort, how a title becomes an
//! address, which task statuses are still work.
use vstd::prelude::*;
use crate::moment::{moment_seconds, timestamp_seconds};
use crate::number::{parse_in, parsed};
use crate::order::{compare_strings, law_sorted_is_in_order, lemma_stable_sort_len, lemma_text_order, sorted_by, stable_sort, strict_order, text_order};
use crate::text::{
    all_in, all_of, append, append_str, chars_of, contains, decimal, drop_lead, drop_tail, dropped_lead, dropped_tail,
    in_class, is_alnum, is_digit, is_lower, is_upper, joined, lead, lead_of, lemma_lead_bounds, lit, lower, occurs_at,
    push_decimal, rfind, rfind_in, same_str, slice, split_by, split_class, strings, strip_suffix, stripped_suffix,
    text_of, to_lower, trim, trimmed, views, Class,
};

verus! {

/// Whether a status counts as work still to do: anything but `done` and
/// `dropped`.
pub fn is_open_status(status: &str) -> (r: bool)
    ensures
        r == !(status@ == "done"@ || status@ == "dropped"@),
{
    let s = chars_of(status);
    !(same_str(&s, "done") || same_str(&s, "dropped"))
}

/// A handwritten text of a project: its vision, its rituals, a research
/// note.
#[derive(Debug, Clone)]
pub struct Document {
    pub id: i64,
    pub project_id: i64,
    pub kind: String,
    /// What addresses it: `vision`, `rituals`, `2026-09-04-the-tool`.
    pub slug: String,
    pub title: String,
    pub body: String,
    pub created_at: String,
    pub updated_at: String,
    /// The file in a hub this was read from, when it came from one.
    pub source_file: Option<String>,
}

#[derive(Debug, Clone)]
pub struct Project {
    pub id: i64,
    pub name: String,
    pub path: String,
    pub remote: Option<String>,
    pub created_at: String,
    /// Where the project sits in the release rotation, once someone says.
    pub tier: Option<String>,
    /// Weeks it is meant to go between releases.
    pub rhythm_weeks: Option<u32>,
    pub kind: Kind,
    /// Where its hub is, once a hub has been imported or exported.
    pub hub_path: Option<String>,
    /// The command that says this project is fit to commit.
    pub gate: Option<String>,
}

/// What a project is, as far as the parts that read git care.
#[derive(Debug, Clone, Copy, PartialEq, Eq, Structural)]
pub enum Kind {
    /// A checkout on disk, which `sync` reads.
    Repo,
    /// A place the record keeps for itself; git is never asked about it.
    Service,
}

impl Kind {
    pub fn as_str(self) -> (r: &'static str)
        ensures
            r@ == (match self {
                Kind::Repo => "repo"@,
                Kind::Service => "service"@,
            }),
    {
        match self {
            Kind::Repo => "repo",
            Kind::Service => "service",
        }
    }

    /// Whether `sync` and `doctor` should expect git to answer for it.
    pub fn reads_git(self) -> (r: bool)
        ensures
            r == (self == Kind::Repo),
    {
        match self {
            Kind::Repo => true,
            Kind::Service => false,
        }
    }
}

/// What writing a record did.
#[derive(Debug, Clone, Copy, PartialEq, Eq, Structural)]
pub enum Change {
    Added,
    Updated,
    Unchanged,
}

/// The version being built and the tasks still open under it.
#[derive(Debug)]
pub struct CurrentStage {
    pub version: String,
    pub title: Option<String>,
    pub tasks: Vec<Task>,
}

/// A task as the plan holds it.
#[derive(Debug, Clone)]
pub struct Task {
    pub id: i64,
    pub title: String,
    pub status: String,
}

/// A question waiting for the owner, and where it came from.
#[derive(Debug, Clone)]
pub struct Waiting {
    pub project: String,
    pub id: i64,
    pub date: String,
    pub body: String,
}

/// What a window holds for one project.
#[derive(Debug, Clone)]
pub struct DigestFacts {
    pub shipped: Vec<String>,
    pub decisions: u32,
    pub findings: u32,
    pub changes: u32,
    pub waiting: u32,
}

/// An event as a search returns it.
#[derive(Debug, Clone)]
pub struct Found {
    pub project: String,
    pub kind: String,
    pub date: String,
    pub body: String,
    pub from_git: bool,
    pub commit_hash: Option<String>,
}

/// What the record knows about one version.
#[derive(Debug, Clone)]
pub struct VersionFacts {
    pub name: String,
    pub title: Option<String>,
    pub status: String,
    pub shipped_at: Option<String>,
    pub shipped_ts: Option<String>,
}

/// An event as the packet reads it back.
pub struct RecentEvent {
    pub kind: String,
    pub date: String,
    pub body: String,
    /// Read from a commit message rather than written by a person.
    pub from_git: bool,
}

/// What recording a stage did, and whether the stage stands shipped now.
pub struct Upserted {
    pub id: i64,
    pub change: Change,
    pub shipped: bool,
}

/// One sitting.
#[derive(Debug, Clone)]
pub struct Session {
    pub id: i64,
    pub project_id: i64,
    pub started_at: String,
    /// `None` while it is still open.
    pub ended_at: Option<String>,
}

/// What git said about a project when it was last read.
#[derive(Debug, Clone)]
pub struct Activity {
    pub commits_since_tag: u32,
    pub last_commit_at: Option<String>,
    pub synced_at: String,
}

#[derive(Debug, Default)]
pub struct Counts {
    pub projects: u64,
    pub versions: u64,
    pub tasks: u64,
    pub sessions: u64,
    pub events: u64,
}

/// The number one dot-separated part of a version stands for: its leading
/// digits read as a `u32`, and 0 when there are none or they do not fit.
pub open spec fn part_value(p: Seq<char>) -> int {
    match parsed(p.take(lead(p, Class::Digit) as int), 0, 4294967295) {
        Some(v) => v,
        None => 0,
    }
}

pub open spec fn version_parts(name: Seq<char>) -> Seq<Seq<char>> {
    split_class(drop_lead(name, Class::Either('v', 'V')), Class::Is('.'))
}

pub open spec fn nth_part(parts: Seq<Seq<char>>, i: int) -> int {
    if i < parts.len() {
        part_value(parts[i])
    } else {
        0
    }
}

/// The order of a version name: its first three numbers, missing parts
/// counting as zero and anything after the digits ignored.
pub open spec fn version_key(name: Seq<char>) -> (int, int, int) {
    let parts = version_parts(name);
    (nth_part(parts, 0), nth_part(parts, 1), nth_part(parts, 2))
}

fn part_number(p: &Vec<char>) -> (r: u32)
    ensures
        r == part_value(p@),
{
    let n = lead_of(p, Class::Digit);
    let digits = slice(p, 0, n);
    match crate::number::parse_in(&digits, 0, 4294967295) {
        Some(v) => v as u32,
        None => 0,
    }
}

/// The order of a version name, for sorting: `v0.10.0` after `v0.9.0`,
/// `v1.9` as `(1, 9, 0)`, `v0.19.0+` as `(0, 19, 0)`.
pub fn version_order(name: &str) -> (r: (u32, u32, u32))
    ensures
        (r.0 as int, r.1 as int, r.2 as int) == version_key(name@),
{
    let s = chars_of(name);
    let digits = dropped_lead(&s, Class::Either('v', 'V'));
    let parts = split_by(&digits, Class::Is('.'));
    assert(views(parts@) == version_parts(name@));
    assert(forall|i: int| 0 <= i < parts.len() ==> views(parts@)[i] == parts@[i]@);
    let a = part_number(&parts[0]);
    let b = if parts.len() > 1 {
        part_number(&parts[1])
    } else {
        0
    };
    let c = if parts.len() > 2 {
        part_number(&parts[2])
    } else {
        0
    };
    (a, b, c)
}

/// Version keys in the order of tuples.
pub open spec fn key_less(a: (int, int, int), b: (int, int, int)) -> bool {
    a.0 < b.0 || (a.0 == b.0 && (a.1 < b.1 || (a.1 == b.1 && a.2 < b.2)))
}

/// One step of making a slug: an ASCII letter or digit is kept, lower
/// case; anything else becomes a hyphen unless one already ends the slug.
pub open spec fn slug_step(out: Seq<char>, c: char) -> Seq<char> {
    if is_alnum(c) {
        out.push(lower(c))
    } else if out.len() > 0 && out.last() == '-' {
        out
    } else {
        out.push('-')
    }
}

pub open spec fn slug_draft(s: Seq<char>) -> Seq<char>
    decreases s.len(),
{
    if s.len() == 0 {
        Seq::empty()
    } else {
        slug_step(slug_draft(s.drop_last()), s.last())
    }
}

/// A title as an address: ASCII letters and digits survive in lower case,
/// every other run becomes one hyphen, and no hyphen leads or trails.
pub open spec fn slug(s: Seq<char>) -> Seq<char> {
    drop_tail(drop_lead(slug_draft(s), Class::Is('-')), Class::Is('-'))
}

pub fn slugify(title: &str) -> (r: String)
    ensures
        r@ == slug(title@),
{
    let s = chars_of(title);
    let mut out: Vec<char> = Vec::new();
    for i in 0..s.len()
        invariant
            out@ == slug_draft(s@.take(i as int)),
    {
        assert(s@.take(i + 1).drop_last() =~= s@.take(i as int));
        let c = s[i];
        if crate::text::alnum(c) {
            out.push(to_lower(c));
        } else if !(out.len() > 0 && out[out.len() - 1] == '-') {
            out.push('-');
        }
    }
    assert(s@.take(s.len() as int) =~= s@);
    let a = dropped_lead(&out, Class::Is('-'));
    let b = dropped_tail(&a, Class::Is('-'));
    text_of(&b)
}

/// Today, as a hub dates its lines (`2026-09-08`): the part of an RFC 3339
/// timestamp before its `T`.
pub fn today(now: &str) -> (r: String)
    ensures
        r@ == split_class(now@, Class::Is('T'))[0],
{
    let s = chars_of(now);
    let parts = split_by(&s, Class::Is('T'));
    assert(views(parts@)[0] == parts@[0]@);
    text_of(&parts[0])
}

/// A diary heading without the date it opens with, for telling one entry
/// from another when the same entry was read with and without its date: a
/// lead of at least eight date characters is dropped, then the marks that
/// follow it.
pub open spec fn heading_without_date(heading: Option<Seq<char>>) -> Seq<char> {
    let text = trim(
        match heading {
            Some(h) => h,
            None => Seq::empty(),
        },
    );
    let n = lead(text, Class::DateChar);
    let rest = if n >= 8 {
        text.skip(n as int)
    } else {
        text
    };
    drop_lead(rest, Class::AfterDate)
}

pub fn heading_sans_date(heading: Option<&str>) -> (r: String)
    ensures
        r@ == heading_without_date(
            match heading {
                Some(h) => Some(h@),
                None => None,
            },
        ),
{
    let s = match heading {
        Some(h) => chars_of(h),
        None => Vec::new(),
    };
    let text = trimmed(&s);
    let n = lead_of(&text, Class::DateChar);
    let rest = if n >= 8 {
        slice(&text, n, text.len())
    } else {
        text
    };
    let out = dropped_lead(&rest, Class::AfterDate);
    text_of(&out)
}

/// A backup's name spells the moment it was taken without punctuation:
/// `2026-09-15T08:05:01Z` becomes `20260915-080501`.
pub open spec fn compact(s: Seq<char>) -> Seq<char>
    decreases s.len(),
{
    if s.len() == 0 {
        s
    } else {
        let rest = compact(s.drop_last());
        let c = s.last();
        if c == ':' || c == '-' || c == 'Z' {
            rest
        } else if c == 'T' {
            rest.push('-')
        } else {
            rest.push(c)
        }
    }
}

/// The name of a copy of the database `<stem>.db`, stamped with the schema
/// it holds and the moment it was taken. The first copy taken in a second
/// has no suffix; the ones after it are numbered from 2.
pub open spec fn backup_file(stem: Seq<char>, version: nat, now: Seq<char>, copy: nat) -> Seq<char> {
    stem + ".v"@ + decimal(version) + "-"@ + compact(now) + (if copy < 2 {
        Seq::empty()
    } else {
        "-"@ + decimal(copy)
    }) + ".bak"@
}

/// The name a copy of the database is written under: `rigger.v23-20260915-080501.bak`,
/// or with `-<copy>` before `.bak` for the second and later copy inside one
/// second.
pub fn backup_name(stem: &str, version: u32, now: &str, copy: u32) -> (r: String)
    ensures
        r@ == backup_file(stem@, version as nat, now@, copy as nat),
{
    let mut out = chars_of(stem);
    append_str(&mut out, ".v");
    push_decimal(&mut out, version as u64);
    append_str(&mut out, "-");
    let n = chars_of(now);
    let mut i: usize = 0;
    let ghost start = out@;
    while i < n.len()
        invariant
            i <= n.len(),
            out@ == start + compact(n@.take(i as int)),
        decreases n.len() - i,
    {
        let c = n[i];
        assert(n@.take(i + 1).drop_last() =~= n@.take(i as int));
        if c == ':' || c == '-' || c == 'Z' {
        } else if c == 'T' {
            out.push('-');
        } else {
            out.push(c);
        }
        i = i + 1;
    }
    assert(n@.take(n.len() as int) =~= n@);
    if copy >= 2 {
        append_str(&mut out, "-");
        push_decimal(&mut out, copy as u64);
    }
    append_str(&mut out, ".bak");
    assert(out@ =~= backup_file(stem@, version as nat, now@, copy as nat));
    text_of(&out)
}

/// The fields after the schema in a backup's name,
/// `<stem>.v<schema>-<date>-<time>[-<n>]`, split at each `-`: the schema is
/// found from the right, so a stem with dots of its own still reads.
pub open spec fn backup_fields(name: Seq<char>) -> Option<Seq<Seq<char>>> {
    match strip_suffix(name, ".bak"@) {
        Some(rest) => match rfind(rest, ".v"@) {
            Some(i) => Some(split_class(rest.skip(i + 2), Class::Is('-'))),
            None => None,
        },
        None => None,
    }
}

/// `20260915` and `080501` as RFC 3339: `2026-09-15T08:05:01Z`.
pub open spec fn stamp_text(date: Seq<char>, time: Seq<char>) -> Seq<char> {
    date.subrange(0, 4) + "-"@ + date.subrange(4, 6) + "-"@ + date.subrange(6, 8) + "T"@ + time.subrange(0, 2)
        + ":"@ + time.subrange(2, 4) + ":"@ + time.subrange(4, 6) + "Z"@
}

/// The moment a name is shaped to hold: eight digits of date and six of
/// time after the schema.
pub open spec fn stamp_shape(name: Seq<char>) -> Option<Seq<char>> {
    match backup_fields(name) {
        Some(parts) => if parts.len() >= 3 && parts[1].len() == 8 && parts[2].len() == 6 && all_in(
            parts[1],
            Class::Digit,
        ) && all_in(parts[2], Class::Digit) {
            Some(stamp_text(parts[1], parts[2]))
        } else {
            None
        },
        None => None,
    }
}

/// The moment a backup's name holds, when it holds one: the shape alone is
/// not enough, the moment has to be one the calendar has.
pub open spec fn backup_stamp(name: Seq<char>) -> Option<Seq<char>> {
    match stamp_shape(name) {
        Some(s) => if timestamp_seconds(s) is Some {
            Some(s)
        } else {
            None
        },
        None => None,
    }
}

/// When a copy was taken, read from its name:
/// `rigger.v23-20260915-080501.bak` was taken at `2026-09-15T08:05:01Z`.
/// A name that does not hold a real moment gives nothing rather than a
/// guess.
pub fn stamp_of(name: &str) -> (r: Option<String>)
    ensures
        r matches Some(s) ==> backup_stamp(name@) == Some(s@),
        r is None ==> backup_stamp(name@) is None,
{
    let s = chars_of(name);
    let rest = match stripped_suffix(&s, ".bak") {
        Some(rest) => rest,
        None => return None,
    };
    let v = lit(".v");
    let i = match rfind_in(&rest, &v) {
        Some(i) => i,
        None => return None,
    };
    proof {
        reveal_strlit(".v");
    }
    assert(occurs_at(rest@, v@, i as int) && v@.len() == 2);
    let n = rest.len();
    assert(i + 2 <= n);
    let from: usize = i + 2;
    let tail = slice(&rest, from, n);
    assert(tail@ =~= rest@.skip(i + 2));
    let parts = split_by(&tail, Class::Is('-'));
    if parts.len() < 3 {
        return None;
    }
    assert(views(parts@)[1] == parts@[1]@ && views(parts@)[2] == parts@[2]@);
    let date = &parts[1];
    let time = &parts[2];
    if date.len() != 8 || time.len() != 6 || !all_of(date, Class::Digit) || !all_of(time, Class::Digit) {
        return None;
    }
    let mut out = slice(date, 0, 4);
    out.push('-');
    append(&mut out, &slice(date, 4, 6));
    out.push('-');
    append(&mut out, &slice(date, 6, 8));
    out.push('T');
    append(&mut out, &slice(time, 0, 2));
    out.push(':');
    append(&mut out, &slice(time, 2, 4));
    out.push(':');
    append(&mut out, &slice(time, 4, 6));
    out.push('Z');
    proof {
        reveal_strlit("-");
        reveal_strlit("T");
        reveal_strlit(":");
        reveal_strlit("Z");
    }
    assert(out@ =~= stamp_text(date@, time@));
    let stamp = text_of(&out);
    match moment_seconds(stamp.as_str()) {
        Some(_) => Some(stamp),
        None => None,
    }
}

/// Which copy inside one second a name is: the number after the time, the
/// unsuffixed first copy counting as 1; 0 for a name that is not a copy or
/// whose suffix is not a number.
pub open spec fn copy_number(name: Seq<char>) -> nat {
    match backup_fields(name) {
        Some(parts) => if parts.len() > 3 {
            match parsed(parts[3], 0, 4294967295) {
                Some(v) => v as nat,
                None => 0,
            }
        } else {
            1
        },
        None => 0,
    }
}

fn sequence_of(name: &str) -> (r: u32)
    ensures
        r as nat == copy_number(name@),
{
    let s = chars_of(name);
    let rest = match stripped_suffix(&s, ".bak") {
        Some(rest) => rest,
        None => return 0,
    };
    let v = lit(".v");
    let i = match rfind_in(&rest, &v) {
        Some(i) => i,
        None => return 0,
    };
    proof {
        reveal_strlit(".v");
    }
    assert(occurs_at(rest@, v@, i as int) && v@.len() == 2);
    let n = rest.len();
    assert(i + 2 <= n);
    let from: usize = i + 2;
    let tail = slice(&rest, from, n);
    assert(tail@ =~= rest@.skip(i + 2));
    let parts = split_by(&tail, Class::Is('-'));
    if parts.len() > 3 {
        assert(views(parts@)[3] == parts@[3]@);
        match parse_in(&parts[3], 0, 4294967295) {
            Some(v) => v as u32,
            None => 0,
        }
    } else {
        1
    }
}

/// Moments as copies are ordered by them: a name without one before any
/// that has one, then the moments in the order of their text, which for
/// RFC 3339 in UTC is the order of time.
pub open spec fn stamp_before(a: Option<Seq<char>>, b: Option<Seq<char>>) -> bool {
    match (a, b) {
        (None, Some(_)) => true,
        (Some(x), Some(y)) => text_order(x, y) < 0,
        _ => false,
    }
}

/// Whether the copy named `a` was taken before the one named `b`: by the
/// moment in the names, then by the copy number inside one second, then by
/// the names themselves.
pub open spec fn taken_before(a: Seq<char>, b: Seq<char>) -> bool {
    let sa = backup_stamp(a);
    let sb = backup_stamp(b);
    ||| stamp_before(sa, sb)
    ||| sa == sb && copy_number(a) < copy_number(b)
    ||| sa == sb && copy_number(a) == copy_number(b) && text_order(a, b) < 0
}

pub open spec fn copy_older() -> spec_fn(String, String) -> bool {
    |a: String, b: String| taken_before(a@, b@)
}

fn taken_earlier(a: &String, b: &String) -> (r: bool)
    ensures
        r == taken_before(a@, b@),
{
    let sa = stamp_of(a.as_str());
    let sb = stamp_of(b.as_str());
    let (earlier, same) = match (&sa, &sb) {
        (None, None) => (false, true),
        (None, Some(_)) => (true, false),
        (Some(_), None) => (false, false),
        (Some(x), Some(y)) => {
            let c = compare_strings(x, y);
            proof {
                lemma_text_order(x@, y@, y@);
            }
            (c < 0, c == 0)
        },
    };
    assert(earlier == stamp_before(backup_stamp(a@), backup_stamp(b@)));
    assert(same == (backup_stamp(a@) == backup_stamp(b@)));
    if earlier {
        return true;
    }
    if !same {
        return false;
    }
    let qa = sequence_of(a.as_str());
    let qb = sequence_of(b.as_str());
    if qa != qb {
        return qa < qb;
    }
    compare_strings(a, b) < 0
}

fn reversed(v: Vec<String>) -> (r: Vec<String>)
    ensures
        r@ == v@.reverse(),
{
    let mut out: Vec<String> = Vec::new();
    let mut rest = v;
    let ghost all = rest@;
    while rest.len() > 0
        invariant
            rest@ == all.take(rest.len() as int),
            rest.len() <= all.len(),
            out.len() == all.len() - rest.len(),
            forall|i: int| 0 <= i < out.len() ==> out@[i] == all[all.len() - 1 - i],
        decreases rest.len(),
    {
        let x = rest.pop().unwrap();
        out.push(x);
        assert(rest@ =~= all.take(rest.len() as int));
    }
    assert(out@ =~= all.reverse());
    out
}

/// File names of copies of the database, newest first: sorted by the
/// moment each carries, then by its copy number as the number it is - a
/// `-2` copy was taken after the unsuffixed one though its name sorts
/// before it - and the order reversed.
pub fn newest_first(names: Vec<String>) -> (r: Vec<String>)
    ensures
        r@ == stable_sort(names@, copy_older()).reverse(),
{
    let before = |a: &String, b: &String| -> (r: bool)
        ensures
            r == taken_before(a@, b@),
        { taken_earlier(a, b) };
    let sorted = sorted_by(names, &before, Ghost(copy_older()));
    reversed(sorted)
}

/// The copies that go when only the `keep` newest stay, out of a list that
/// is newest first. Keeping none would delete the copy just taken, so
/// `keep` of zero is read as one.
pub fn pruned(newest: &Vec<String>, keep: usize) -> (r: Vec<String>)
    ensures
        strings(r@) == (if (if keep == 0 {
            1
        } else {
            keep as int
        }) >= newest.len() {
            Seq::empty()
        } else {
            strings(newest@).skip(if keep == 0 {
                1
            } else {
                keep as int
            })
        }),
{
    let k: usize = if keep == 0 {
        1
    } else {
        keep
    };
    let mut out: Vec<String> = Vec::new();
    let mut i = k;
    while i < newest.len()
        invariant
            k <= i,
            k == (if keep == 0 {
                1
            } else {
                keep
            }),
            k < newest.len() ==> i <= newest.len(),
            k < newest.len() ==> strings(out@) == strings(newest@).subrange(k as int, i as int),
            k >= newest.len() ==> out@.len() == 0,
        decreases newest.len() - i,
    {
        let name = newest[i].clone();
        let ghost before = strings(out@);
        out.push(name);
        assert(strings(out@) =~= before.push(newest@[i as int]@));
        assert(strings(newest@).subrange(k as int, i + 1) =~= strings(newest@).subrange(k as int, i as int).push(
            newest@[i as int]@,
        ));
        i = i + 1;
    }
    assert(strings(newest@).subrange(k as int, newest.len() as int) =~= strings(newest@).skip(k as int));
    assert(k >= newest.len() ==> strings(out@) =~= Seq::<Seq<char>>::empty());
    out
}

proof fn lemma_copy_older_is_strict()
    ensures
        strict_order(copy_older()),
{
    let lt = copy_older();
    assert forall|a: String| !#[trigger] lt(a, a) by {
        if let Some(x) = backup_stamp(a@) {
            lemma_text_order(x, x, x);
        }
        lemma_text_order(a@, a@, a@);
    }
    assert forall|a: String, b: String, c: String| #[trigger] lt(a, b) && #[trigger] lt(b, c) implies lt(a, c) by {
        lemma_text_order(a@, b@, c@);
        match (backup_stamp(a@), backup_stamp(b@), backup_stamp(c@)) {
            (Some(x), Some(y), Some(z)) => {
                lemma_text_order(x, y, z);
            },
            _ => {},
        }
    }
}

/// The list of copies is newest first: no copy stands before one that was
/// taken after it, and every name given is in it as often as it was given.
pub proof fn law_copies_newest_first(names: Seq<String>)
    ensures
        forall|i: int, j: int|
            0 <= i < j < names.len() ==> !taken_before(
                #[trigger] stable_sort(names, copy_older()).reverse()[i]@,
                #[trigger] stable_sort(names, copy_older()).reverse()[j]@,
            ),
        stable_sort(names, copy_older()).reverse().to_multiset() == names.to_multiset(),
{
    lemma_copy_older_is_strict();
    law_sorted_is_in_order(names, copy_older());
    lemma_stable_sort_len(names, copy_older());
    let s = stable_sort(names, copy_older());
    let r = s.reverse();
    assert forall|i: int, j: int| 0 <= i < j < names.len() implies !taken_before(#[trigger] r[i]@, #[trigger] r[j]@) by {
        let a = s.len() - 1 - i;
        let b = s.len() - 1 - j;
        assert(r[i] == s[a] && r[j] == s[b]);
        assert(!copy_older()(s[a], s[b]));
    }
    broadcast use vstd::seq_lib::group_to_multiset_ensures;
    s.lemma_reverse_to_multiset();
}

proof fn lemma_compact_concat(a: Seq<char>, b: Seq<char>)
    ensures
        compact(a + b) == compact(a) + compact(b),
    decreases b.len(),
{
    if b.len() == 0 {
        assert(a + b =~= a);
        assert(compact(a) + compact(b) =~= compact(a));
    } else {
        lemma_compact_concat(a, b.drop_last());
        assert((a + b).drop_last() =~= a + b.drop_last());
        let c = b.last();
        if c == ':' || c == '-' || c == 'Z' {
        } else if c == 'T' {
            assert(compact(a) + compact(b.drop_last()).push('-') =~= (compact(a) + compact(b.drop_last())).push('-'));
        } else {
            assert(compact(a) + compact(b.drop_last()).push(c) =~= (compact(a) + compact(b.drop_last())).push(c));
        }
    }
}

proof fn lemma_compact_digits(s: Seq<char>)
    requires
        all_in(s, Class::Digit),
    ensures
        compact(s) == s,
    decreases s.len(),
{
    if s.len() > 0 {
        let t = s.drop_last();
        assert forall|i: int| 0 <= i < t.len() implies in_class(Class::Digit, #[trigger] t[i]) by {
            assert(t[i] == s[i]);
        }
        lemma_compact_digits(t);
        assert(in_class(Class::Digit, s[s.len() - 1]));
        assert(t.push(s.last()) =~= s);
    }
}

proof fn lemma_compact_one(c: char)
    ensures
        compact(seq![c]) == (if c == ':' || c == '-' || c == 'Z' {
            Seq::<char>::empty()
        } else if c == 'T' {
            seq!['-']
        } else {
            seq![c]
        }),
{
    assert(compact(Seq::<char>::empty()) == Seq::<char>::empty());
    assert(seq![c].drop_last() =~= Seq::<char>::empty());
    assert(seq![c].last() == c);
    assert(Seq::<char>::empty().push('-') =~= seq!['-']);
    assert(Seq::<char>::empty().push(c) =~= seq![c]);
}

proof fn lemma_digit_slice(s: Seq<char>, a: int, b: int)
    requires
        all_in(s, Class::Digit),
        0 <= a <= b <= s.len(),
    ensures
        all_in(s.subrange(a, b), Class::Digit),
        compact(s.subrange(a, b)) == s.subrange(a, b),
{
    assert forall|i: int| 0 <= i < b - a implies in_class(Class::Digit, #[trigger] s.subrange(a, b)[i]) by {
        assert(s.subrange(a, b)[i] == s[a + i]);
    }
    lemma_compact_digits(s.subrange(a, b));
}

/// A moment spelt as RFC 3339 loses its punctuation in a backup's name and
/// keeps its digits.
proof fn lemma_compact_stamp(date: Seq<char>, time: Seq<char>)
    requires
        date.len() == 8,
        time.len() == 6,
        all_in(date, Class::Digit),
        all_in(time, Class::Digit),
    ensures
        compact(stamp_text(date, time)) == date + seq!['-'] + time,
{
    reveal_strlit("-");
    reveal_strlit("T");
    reveal_strlit(":");
    reveal_strlit("Z");
    let d0 = date.subrange(0, 4);
    let d1 = date.subrange(4, 6);
    let d2 = date.subrange(6, 8);
    let t0 = time.subrange(0, 2);
    let t1 = time.subrange(2, 4);
    let t2 = time.subrange(4, 6);
    lemma_digit_slice(date, 0, 4);
    lemma_digit_slice(date, 4, 6);
    lemma_digit_slice(date, 6, 8);
    lemma_digit_slice(time, 0, 2);
    lemma_digit_slice(time, 2, 4);
    lemma_digit_slice(time, 4, 6);
    lemma_compact_one('-');
    lemma_compact_one('T');
    lemma_compact_one(':');
    lemma_compact_one('Z');
    let dash = seq!['-'];
    let tee = seq!['T'];
    let colon = seq![':'];
    let zed = seq!['Z'];
    assert("-"@ == dash && "T"@ == tee && ":"@ == colon && "Z"@ == zed);
    let p1 = d0 + dash;
    let p2 = p1 + d1;
    let p3 = p2 + dash;
    let p4 = p3 + d2;
    let p5 = p4 + tee;
    let p6 = p5 + t0;
    let p7 = p6 + colon;
    let p8 = p7 + t1;
    let p9 = p8 + colon;
    let p10 = p9 + t2;
    let p11 = p10 + zed;
    assert(stamp_text(date, time) == p11);
    lemma_compact_concat(d0, dash);
    lemma_compact_concat(p1, d1);
    lemma_compact_concat(p2, dash);
    lemma_compact_concat(p3, d2);
    lemma_compact_concat(p4, tee);
    lemma_compact_concat(p5, t0);
    lemma_compact_concat(p6, colon);
    lemma_compact_concat(p7, t1);
    lemma_compact_concat(p8, colon);
    lemma_compact_concat(p9, t2);
    lemma_compact_concat(p10, zed);
    assert(compact(p11) =~= d0 + d1 + d2 + dash + t0 + t1 + t2);
    assert(d0 + d1 + d2 =~= date);
    assert(t0 + t1 + t2 =~= time);
    assert(d0 + d1 + d2 + dash + t0 + t1 + t2 =~= date + dash + time);
}

/// The fields of a copy's name, after its schema: the schema, the date, the
/// time, and the copy number after the first copy in a second.
pub open spec fn name_fields(version: nat, date: Seq<char>, time: Seq<char>, copy: nat) -> Seq<Seq<char>> {
    if copy < 2 {
        seq![decimal(version), date, time]
    } else {
        seq![decimal(version), date, time, decimal(copy)]
    }
}

proof fn lemma_digits_in_class(n: nat)
    ensures
        all_in(decimal(n), Class::Digit),
        decimal(n).len() >= 1,
        crate::number::parsed(decimal(n), 0, 4294967295) == (if n <= 4294967295 {
            Some(n as int)
        } else {
            None::<int>
        }),
{
    let d = decimal(n);
    crate::number::lemma_decimal_digits(n);
    assert forall|i: int| 0 <= i < d.len() implies in_class(Class::Digit, #[trigger] d[i]) by {
        assert(is_digit(d[i]));
    }
    assert(d[0] != '-' && d[0] != '+') by {
        assert(is_digit(d[0]));
    }
}

proof fn lemma_fields_joined(version: nat, date: Seq<char>, time: Seq<char>, copy: nat)
    requires
        date.len() == 8,
        time.len() == 6,
        all_in(date, Class::Digit),
        all_in(time, Class::Digit),
    ensures
        joined(name_fields(version, date, time, copy), seq!['-']) == decimal(version) + seq!['-'] + compact(
            stamp_text(date, time),
        ) + (if copy < 2 {
            Seq::<char>::empty()
        } else {
            seq!['-'] + decimal(copy)
        }),
        forall|j: int|
            0 <= j < joined(name_fields(version, date, time, copy), seq!['-']).len() ==> #[trigger] joined(
                name_fields(version, date, time, copy),
                seq!['-'],
            )[j] != '.',
        split_class(joined(name_fields(version, date, time, copy), seq!['-']), Class::Is('-')) == name_fields(
            version,
            date,
            time,
            copy,
        ),
{
    let dash = seq!['-'];
    let d = decimal(version);
    let e = decimal(copy);
    lemma_digits_in_class(version);
    lemma_digits_in_class(copy);
    lemma_compact_stamp(date, time);
    let f3 = seq![d, date, time];
    assert(f3.drop_last() =~= seq![d, date]);
    assert(seq![d, date].drop_last() =~= seq![d]);
    assert(joined(seq![d], dash) == d);
    assert(joined(seq![d, date], dash) == d + dash + date);
    assert(joined(f3, dash) == d + dash + date + dash + time);
    let fields = name_fields(version, date, time, copy);
    if copy >= 2 {
        assert(fields.drop_last() =~= f3);
        assert(joined(fields, dash) == joined(f3, dash) + dash + e);
        assert(joined(fields, dash) =~= d + dash + (date + dash + time) + (dash + e));
    } else {
        assert(joined(fields, dash) =~= d + dash + (date + dash + time) + Seq::<char>::empty());
    }
    let w = joined(fields, dash);
    assert forall|i: int, j: int| 0 <= i < fields.len() && 0 <= j < fields[i].len() implies (#[trigger] fields[i][j]
        != '-' && fields[i][j] != '.') by {
        let f = fields[i];
        assert(in_class(Class::Digit, f[j])) by {
            if i == 0 {
                assert(f == d);
            } else if i == 1 {
                assert(f == date);
            } else if i == 2 {
                assert(f == time);
            } else {
                assert(f == e);
            }
        }
    }
    crate::text::lemma_split_joined(fields, '-');
    assert forall|j: int| 0 <= j < w.len() implies #[trigger] w[j] != '.' by {
        let dl = d.len() as int;
        if j < dl {
            assert(w[j] == fields[0][j]);
        } else if j == dl {
        } else if j < dl + 9 {
            assert(w[j] == fields[1][j - dl - 1]);
        } else if j == dl + 9 {
        } else if j < dl + 16 {
            assert(w[j] == fields[2][j - dl - 10]);
        } else if j == dl + 16 {
        } else {
            assert(w[j] == fields[3][j - dl - 17]);
        }
    }
}

/// Behind the last `.v` of a copy's name stand the fields it was written
/// with, however many dots the stem has.
proof fn lemma_backup_fields(stem: Seq<char>, version: nat, date: Seq<char>, time: Seq<char>, copy: nat)
    requires
        date.len() == 8,
        time.len() == 6,
        all_in(date, Class::Digit),
        all_in(time, Class::Digit),
    ensures
        backup_fields(backup_file(stem, version, stamp_text(date, time), copy)) == Some(
            name_fields(version, date, time, copy),
        ),
{
    reveal_strlit("-");
    reveal_strlit(".v");
    reveal_strlit(".bak");
    let now = stamp_text(date, time);
    lemma_fields_joined(version, date, time, copy);
    let fields = name_fields(version, date, time, copy);
    let w = joined(fields, seq!['-']);
    let rest = stem + ".v"@ + w;
    let name = backup_file(stem, version, now, copy);
    assert(name =~= rest + ".bak"@);
    assert(name.skip(name.len() - 4) =~= ".bak"@);
    assert(name.take(name.len() - 4) =~= rest);
    assert(strip_suffix(name, ".bak"@) == Some(rest));
    let k = stem.len() as int;
    assert(occurs_at(rest, ".v"@, k)) by {
        assert(rest.subrange(k, k + 2) =~= ".v"@);
    }
    assert forall|j: int| k < j implies !occurs_at(rest, ".v"@, j) by {
        if occurs_at(rest, ".v"@, j) {
            assert(rest.subrange(j, j + 2)[0] == '.');
            assert(rest[j] == '.');
            if j == k + 1 {
                assert(rest[j] == 'v');
            } else {
                assert(rest[j] == w[j - k - 2]);
            }
        }
    }
    assert(rfind(rest, ".v"@) == Some(k)) by {
        reveal(rfind);
        assert(contains(rest, ".v"@));
        let i = choose|i: int| occurs_at(rest, ".v"@, i) && forall|j: int| i < j ==> !occurs_at(rest, ".v"@, j);
        assert(occurs_at(rest, ".v"@, i));
        if i < k {
            assert(!occurs_at(rest, ".v"@, k));
        }
    }
    assert(rest.skip(k + 2) =~= w);
}

/// A copy's name gives back the moment it was taken and the number it was
/// given inside its second, whatever the stem and the schema: the moment
/// reads back exactly when jiff reads it as a timestamp.
pub proof fn law_backup_name_reads_back(stem: Seq<char>, version: nat, date: Seq<char>, time: Seq<char>, copy: nat)
    requires
        date.len() == 8,
        time.len() == 6,
        all_in(date, Class::Digit),
        all_in(time, Class::Digit),
        copy <= 4294967295,
    ensures
        backup_stamp(backup_file(stem, version, stamp_text(date, time), copy)) == (if timestamp_seconds(
            stamp_text(date, time),
        ) is Some {
            Some(stamp_text(date, time))
        } else {
            None
        }),
        copy_number(backup_file(stem, version, stamp_text(date, time), copy)) == (if copy < 2 {
            1
        } else {
            copy
        }),
{
    lemma_backup_fields(stem, version, date, time, copy);
    lemma_digits_in_class(copy);
    let fields = name_fields(version, date, time, copy);
    assert(fields[1] == date && fields[2] == time);
    if copy >= 2 {
        assert(fields[3] == decimal(copy));
    }
}

/// Two hyphens in a row at `i`.
pub open spec fn dash_pair(t: Seq<char>, i: int) -> bool {
    0 <= i && i + 1 < t.len() && t[i] == '-' && t[i + 1] == '-'
}

/// What can be typed as an address: lower-case ASCII letters, digits and
/// hyphens, never two hyphens in a row.
pub open spec fn typeable(t: Seq<char>) -> bool {
    &&& forall|i: int| 0 <= i < t.len() ==> (is_lower(#[trigger] t[i]) || is_digit(t[i]) || t[i] == '-')
    &&& forall|i: int| !#[trigger] dash_pair(t, i)
}

proof fn lemma_lower_alnum(c: char)
    requires
        is_alnum(c),
    ensures
        is_lower(lower(c)) || is_digit(lower(c)),
        !is_alnum(c) || lower(c) != '-',
{
    if is_upper(c) {
        assert(65 <= c as u32 <= 90);
        assert((c as u32) + 32 < 0xD800);
    }
}

proof fn lemma_draft_typeable(s: Seq<char>)
    ensures
        typeable(slug_draft(s)),
    decreases s.len(),
{
    if s.len() > 0 {
        let d = slug_draft(s.drop_last());
        lemma_draft_typeable(s.drop_last());
        let c = s.last();
        let e = slug_draft(s);
        if is_alnum(c) {
            lemma_lower_alnum(c);
            assert(e == d.push(lower(c)));
            assert forall|i: int| 0 <= i < e.len() implies (is_lower(#[trigger] e[i]) || is_digit(e[i]) || e[i] == '-') by {
                if i < d.len() {
                    assert(e[i] == d[i]);
                }
            }
            assert forall|i: int| !#[trigger] dash_pair(e, i) by {
                if 0 <= i && i + 1 < d.len() {
                    assert(e[i] == d[i] && e[i + 1] == d[i + 1]);
                    assert(!dash_pair(d, i));
                }
            }
        } else if d.len() > 0 && d.last() == '-' {
        } else {
            assert(e == d.push('-'));
            assert forall|i: int| 0 <= i < e.len() implies (is_lower(#[trigger] e[i]) || is_digit(e[i]) || e[i] == '-') by {
                if i < d.len() {
                    assert(e[i] == d[i]);
                }
            }
            assert forall|i: int| !#[trigger] dash_pair(e, i) by {
                if 0 <= i && i + 1 < d.len() {
                    assert(e[i] == d[i] && e[i + 1] == d[i + 1]);
                    assert(!dash_pair(d, i));
                }
                if i + 1 == d.len() && d.len() > 0 {
                    assert(e[i] == d[i]);
                    assert(d[i] == d.last());
                }
            }
        }
    }
}

proof fn lemma_drop_tail_prefix(s: Seq<char>, cl: Class)
    ensures
        drop_tail(s, cl).len() <= s.len(),
        drop_tail(s, cl) == s.take(drop_tail(s, cl).len() as int),
        drop_tail(s, cl).len() == 0 || !in_class(cl, drop_tail(s, cl).last()),
    decreases s.len(),
{
    if s.len() > 0 && in_class(cl, s.last()) {
        lemma_drop_tail_prefix(s.drop_last(), cl);
        let t = drop_tail(s.drop_last(), cl);
        assert(s.drop_last().take(t.len() as int) =~= s.take(t.len() as int));
    } else {
        assert(s.take(s.len() as int) =~= s);
    }
}

/// A slug can be typed on a command line: lower-case ASCII letters, digits
/// and single hyphens between them, never a hyphen at either end.
pub proof fn law_slug_can_be_typed(title: Seq<char>)
    ensures
        typeable(slug(title)),
        slug(title).len() > 0 ==> slug(title)[0] != '-' && slug(title).last() != '-',
{
    let d = slug_draft(title);
    lemma_draft_typeable(title);
    let cl = Class::Is('-');
    lemma_lead_bounds(d, cl);
    let n = lead(d, cl) as int;
    let a = drop_lead(d, cl);
    assert(a =~= d.skip(n));
    assert forall|i: int| 0 <= i < a.len() implies (is_lower(#[trigger] a[i]) || is_digit(a[i]) || a[i] == '-') by {
        assert(a[i] == d[i + n]);
    }
    assert forall|i: int| !#[trigger] dash_pair(a, i) by {
        if 0 <= i && i + 1 < a.len() {
            assert(a[i] == d[i + n] && a[i + 1] == d[i + n + 1]);
            assert(!dash_pair(d, i + n));
        }
    }
    assert(a.len() > 0 ==> a[0] != '-') by {
        if a.len() > 0 {
            assert(a[0] == d[n]);
        }
    }
    lemma_drop_tail_prefix(a, cl);
    let b = drop_tail(a, cl);
    let m = b.len() as int;
    assert forall|i: int| 0 <= i < b.len() implies (is_lower(#[trigger] b[i]) || is_digit(b[i]) || b[i] == '-') by {
        assert(b[i] == a[i]);
    }
    assert forall|i: int| !#[trigger] dash_pair(b, i) by {
        if 0 <= i && i + 1 < b.len() {
            assert(b[i] == a[i] && b[i + 1] == a[i + 1]);
            assert(!dash_pair(a, i));
        }
    }
    if b.len() > 0 {
        assert(b[0] == a[0]);
    }
}

/// A slug is its own slug: making an address of an address changes nothing.
pub proof fn law_slug_is_stable(title: Seq<char>)
    ensures
        slug(slug(title)) == slug(title),
{
    let t = slug(title);
    law_slug_can_be_typed(title);
    assert forall|k: int| 0 <= k <= t.len() implies slug_draft(#[trigger] t.take(k)) == t.take(k) by {
        lemma_draft_prefix(t, k);
    }
    assert(t.take(t.len() as int) =~= t);
    let cl = Class::Is('-');
    assert(lead(t, cl) == 0);
    assert(drop_lead(t, cl) =~= t);
}

proof fn lemma_draft_prefix(t: Seq<char>, k: int)
    requires
        typeable(t),
        t.len() > 0 ==> t[0] != '-',
        0 <= k <= t.len(),
    ensures
        slug_draft(t.take(k)) == t.take(k),
    decreases k,
{
    if k > 0 {
        lemma_draft_prefix(t, k - 1);
        let p = t.take(k - 1);
        assert(t.take(k).drop_last() =~= p);
        let c = t[k - 1];
        assert(t.take(k).last() == c);
        if c == '-' {
            assert(k - 1 > 0);
            assert(!dash_pair(t, k - 2));
            assert(p.last() == t[k - 2]);
            assert(p.push('-') =~= t.take(k));
        } else {
            assert(is_lower(c) || is_digit(c));
            assert(lower(c) == c);
            assert(p.push(c) =~= t.take(k));
        }
    }
}

/// A copy a day old is stale; a week old, old.
pub const BACKUP_STALE_DAYS: i64 = 1;
pub const BACKUP_OLD_DAYS: i64 = 7;

/// How the age of the newest copy is judged: fresh, stale, old, or none at
/// all.
pub open spec fn backup_state_of(age_days: Option<i64>) -> Seq<char> {
    match age_days {
        None => "none"@,
        Some(d) => if d >= BACKUP_OLD_DAYS {
            "old"@
        } else if d >= BACKUP_STALE_DAYS {
            "stale"@
        } else {
            "fresh"@
        },
    }
}

pub fn backup_state(age_days: Option<i64>) -> (r: &'static str)
    ensures
        r@ == backup_state_of(age_days),
{
    match age_days {
        None => "none",
        Some(d) => if d >= BACKUP_OLD_DAYS {
            "old"
        } else if d >= BACKUP_STALE_DAYS {
            "stale"
        } else {
            "fresh"
        },
    }
}

} // verus!
