//! Recording a whole directory of repositories at once: what became of
//! each one, and how that reads. Walking the directory and writing the
//! record is the program's work.
use vstd::prelude::*;
use crate::context::{plural_text, push_plural};
use crate::calendar::{pad, push_pad, spaces};
use crate::text::{
    append, append_str, chars_of, chars_of_string, decimal, joined, push_decimal, strings, text_of, utf8_len,
    utf8_width, views, width_of,
};

verus! {

/// What became of one repository.
#[derive(Debug)]
pub struct Adopted {
    pub name: String,
    pub path: String,
    pub status: Status,
    /// Where the hub was found, when one was.
    pub hub: Option<String>,
    pub versions_added: u32,
    pub tasks_added: u32,
    pub diary_added: u32,
    /// Files whose prose the record took in on this run.
    pub prose_files: u32,
    /// Struck from the hub since it was last read.
    pub tasks_dropped: u32,
    pub versions_dropped: u32,
    /// Versions a tag proved shipped, on this run.
    pub shipped: u32,
    /// Changes read from commit messages, on this run.
    pub changes_read: u32,
    pub warnings: Vec<String>,
}

#[derive(Debug, Clone, PartialEq, Eq)]
pub enum Status {
    /// Recorded on this run.
    Recorded,
    /// Was recorded already; read again.
    Known,
    /// Not recorded: the hubs directory holds no hub of this name.
    NoHub,
    /// Left alone, for the reason given.
    Skipped(String),
}

/// A count said with its noun, when it is not zero.
pub open spec fn counted_part(n: u32, one: Seq<char>, many: Seq<char>) -> Seq<Seq<char>> {
    if n > 0 {
        seq![plural_text(n as nat, one, many)]
    } else {
        Seq::empty()
    }
}

/// What the hub gave, as a phrase: every kind that is not zero, then what
/// was struck.
pub open spec fn summary_text(a: Adopted) -> Seq<char> {
    let parts = counted_part(a.versions_added, "version"@, "versions"@) + counted_part(a.tasks_added, "task"@, "tasks"@)
        + counted_part(a.diary_added, "diary entry"@, "diary entries"@) + counted_part(
        a.prose_files,
        "file of prose"@,
        "files of prose"@,
    );
    let gone = counted_part(a.versions_dropped, "version"@, "versions"@) + counted_part(
        a.tasks_dropped,
        "task"@,
        "tasks"@,
    );
    let struck = if gone.len() == 0 {
        Seq::empty()
    } else {
        "; "@ + joined(gone, ", "@) + " struck"@
    };
    if parts.len() == 0 {
        "hub: nothing new"@ + struck
    } else {
        "hub: "@ + joined(parts, ", "@) + " new"@ + struck
    }
}

fn add_part(parts: &mut Vec<Vec<char>>, n: u32, one: &str, many: &str)
    ensures
        views(final(parts)@) == views(old(parts)@) + counted_part(n, one@, many@),
{
    let ghost before = views(parts@);
    if n > 0 {
        let mut p: Vec<char> = Vec::new();
        push_plural(&mut p, n as u64, one, many);
        parts.push(p);
        assert(views(parts@) =~= before.push(plural_text(n as nat, one@, many@)));
    } else {
        assert(views(parts@) =~= before + Seq::<Seq<char>>::empty());
    }
}

impl Adopted {
    /// What the hub gave, as a phrase: `2 versions, 6 tasks, 30 diary
    /// entries new`, every kind named.
    pub fn hub_summary(&self) -> (r: String)
        ensures
            r@ == summary_text(*self),
    {
        let mut parts: Vec<Vec<char>> = Vec::new();
        add_part(&mut parts, self.versions_added, "version", "versions");
        add_part(&mut parts, self.tasks_added, "task", "tasks");
        add_part(&mut parts, self.diary_added, "diary entry", "diary entries");
        add_part(&mut parts, self.prose_files, "file of prose", "files of prose");
        let mut gone: Vec<Vec<char>> = Vec::new();
        add_part(&mut gone, self.versions_dropped, "version", "versions");
        add_part(&mut gone, self.tasks_dropped, "task", "tasks");
        let mut struck: Vec<char> = Vec::new();
        if gone.len() > 0 {
            append_str(&mut struck, "; ");
            append(&mut struck, &crate::text::join_with(&gone, ", "));
            append_str(&mut struck, " struck");
        }
        let mut out: Vec<char> = Vec::new();
        if parts.len() == 0 {
            append_str(&mut out, "hub: nothing new");
        } else {
            append_str(&mut out, "hub: ");
            append(&mut out, &crate::text::join_with(&parts, ", "));
            append_str(&mut out, " new");
        }
        append(&mut out, &struck);
        proof {
            reveal_strlit("");
        }
        text_of(&out)
    }
}

/// What became of a repository, in a word.
pub open spec fn status_word(s: Status, check: bool) -> Seq<char> {
    match s {
        Status::Recorded => if check {
            "would record"@
        } else {
            "recorded"@
        },
        Status::Known => "known"@,
        Status::NoHub => "no hub"@,
        Status::Skipped(_) => "skipped"@,
    }
}

/// Whether a repository's hub was read on this run.
pub open spec fn reads_hub(a: Adopted, check: bool) -> bool {
    !(a.status is NoHub) && a.hub is Some && !(a.status is Skipped) && !check
}

/// The hub column: nothing for a repository without one, whether one was
/// found, or what it gave when it was read.
pub open spec fn hub_column(a: Adopted, check: bool) -> Seq<char> {
    if a.status is NoHub {
        Seq::empty()
    } else if a.hub is None {
        "hub: none"@
    } else if reads_hub(a, check) {
        summary_text(a)
    } else {
        "hub: found"@
    }
}

/// The git column: what the tags and commits proved, for a repository
/// that was read.
pub open spec fn git_column(a: Adopted, check: bool) -> Seq<char> {
    if a.status is Skipped || a.status is NoHub || check {
        Seq::empty()
    } else if a.shipped + a.changes_read == 0 {
        "   git: nothing new"@
    } else {
        "   git: "@ + plural_text(a.shipped as nat, "version"@, "versions"@) + " shipped, "@ + plural_text(
            a.changes_read as nat,
            "change"@,
            "changes"@,
        ) + " read"@
    }
}

pub open spec fn notes(w: Seq<Seq<char>>, width: nat) -> Seq<Seq<char>> {
    w.map_values(|x: Seq<char>| spaces(width) + "  note: "@ + x)
}

/// A repository's lines: its name, status, hub and git, then why it was
/// skipped and what it noted.
pub open spec fn adopted_lines(a: Adopted, width: nat, check: bool) -> Seq<Seq<char>> {
    seq![
        pad(a.name@, width) + "  "@ + pad(status_word(a.status, check), 12) + " "@ + hub_column(a, check) + git_column(
            a,
            check,
        ),
    ] + (match a.status {
        Status::Skipped(reason) => seq![spaces(width) + "  "@ + reason@],
        _ => Seq::empty(),
    }) + notes(strings(a.warnings@), width)
}

/// The names are as wide as the longest in bytes.
pub open spec fn name_bytes(as_: Seq<Adopted>) -> nat
    decreases as_.len(),
{
    if as_.len() == 0 {
        0
    } else {
        let a = name_bytes(as_.drop_last());
        let b = utf8_len(as_.last().name@);
        if a >= b {
            a
        } else {
            b
        }
    }
}

pub open spec fn all_lines(as_: Seq<Adopted>, width: nat, check: bool) -> Seq<Seq<char>>
    decreases as_.len(),
{
    if as_.len() == 0 {
        Seq::empty()
    } else {
        all_lines(as_.drop_last(), width, check) + adopted_lines(as_.last(), width, check)
    }
}

/// How many repositories a test holds for.
pub open spec fn how_many(as_: Seq<Adopted>, p: spec_fn(Adopted) -> bool) -> nat
    decreases as_.len(),
{
    if as_.len() == 0 {
        0
    } else {
        how_many(as_.drop_last(), p) + if p(as_.last()) {
            1nat
        } else {
            0
        }
    }
}

/// The line that sums the run up.
pub open spec fn tally_text(as_: Seq<Adopted>, check: bool) -> Seq<char> {
    let recorded = how_many(as_, |a: Adopted| a.status is Recorded);
    let known = how_many(as_, |a: Adopted| a.status is Known);
    let without = how_many(as_, |a: Adopted| a.status is NoHub);
    let skipped = how_many(as_, |a: Adopted| a.status is Skipped);
    let read = how_many(as_, |a: Adopted| reads_hub(a, check));
    plural_text(as_.len(), "repository"@, "repositories"@) + ": "@ + decimal(recorded) + " "@ + (if check {
        "would be recorded"@
    } else {
        "recorded"@
    }) + ", "@ + decimal(known) + " known"@ + (if without > 0 {
        ", "@ + decimal(without) + " without a hub"@
    } else {
        Seq::empty()
    }) + ", "@ + decimal(skipped) + " skipped; "@ + plural_text(read, "hub"@, "hubs"@) + " read."@
}

/// What adopting a directory reports: a line per repository, what it
/// noted, and the sum; with `check`, that nothing was written.
pub open spec fn report_text(as_: Seq<Adopted>, check: bool) -> Seq<Seq<char>> {
    all_lines(as_, name_bytes(as_), check) + seq![Seq::empty(), tally_text(as_, check)] + if check {
        seq!["Nothing was written. Run again without --check to record them."@]
    } else {
        Seq::empty()
    }
}

proof fn lemma_utf8_prefix(s: Seq<char>, i: int)
    requires
        0 <= i <= s.len(),
    ensures
        utf8_len(s.take(i)) <= utf8_len(s),
    decreases s.len() - i,
{
    if i < s.len() {
        lemma_utf8_prefix(s, i + 1);
        assert(s.take(i + 1).drop_last() =~= s.take(i));
    } else {
        assert(s.take(i) =~= s);
    }
}

fn bytes_of(s: &String) -> (r: usize)
    requires
        utf8_len(s@) <= usize::MAX,
    ensures
        r == utf8_len(s@),
{
    let c = chars_of_string(s);
    let mut n: usize = 0;
    let mut i: usize = 0;
    while i < c.len()
        invariant
            i <= c.len(),
            c@ == s@,
            utf8_len(s@) <= usize::MAX,
            n == utf8_len(c@.take(i as int)),
        decreases c.len() - i,
    {
        assert(c@.take(i + 1).drop_last() =~= c@.take(i as int));
        proof {
            lemma_utf8_prefix(c@, i + 1);
        }
        n = n + width_of(c[i]);
        i = i + 1;
    }
    assert(c@.take(c.len() as int) =~= c@);
    n
}

fn push_text(lines: &mut Vec<String>, line: &Vec<char>)
    ensures
        strings(final(lines)@) == strings(old(lines)@).push(line@),
{
    let ghost before = strings(lines@);
    lines.push(text_of(line));
    assert(strings(lines@) =~= before.push(line@));
}

fn hub_col(a: &Adopted, check: bool) -> (r: Vec<char>)
    ensures
        r@ == hub_column(*a, check),
{
    let no_hub = match &a.status {
        Status::NoHub => true,
        _ => false,
    };
    let skipped = match &a.status {
        Status::Skipped(_) => true,
        _ => false,
    };
    if no_hub {
        return Vec::new();
    }
    match &a.hub {
        None => chars_of("hub: none"),
        Some(_) => {
            if !skipped && !check {
                chars_of_string(&a.hub_summary())
            } else {
                chars_of("hub: found")
            }
        },
    }
}

fn git_col(a: &Adopted, check: bool) -> (r: Vec<char>)
    ensures
        r@ == git_column(*a, check),
{
    let quiet = match &a.status {
        Status::NoHub => true,
        Status::Skipped(_) => true,
        _ => false,
    };
    let mut line: Vec<char> = Vec::new();
    if !(quiet || check) {
        if a.shipped as u64 + a.changes_read as u64 == 0 {
            append_str(&mut line, "   git: nothing new");
        } else {
            append_str(&mut line, "   git: ");
            push_plural(&mut line, a.shipped as u64, "version", "versions");
            append_str(&mut line, " shipped, ");
            push_plural(&mut line, a.changes_read as u64, "change", "changes");
            append_str(&mut line, " read");
        }
    }
    line
}

fn head_line(a: &Adopted, width: usize, check: bool) -> (r: Vec<char>)
    ensures
        r@ == pad(a.name@, width as nat) + "  "@ + pad(status_word(a.status, check), 12) + " "@ + hub_column(*a, check)
            + git_column(*a, check),
{
    let mut line: Vec<char> = Vec::new();
    push_pad(&mut line, &chars_of_string(&a.name), width);
    append_str(&mut line, "  ");
    let word: &str = match &a.status {
        Status::Recorded => if check {
            "would record"
        } else {
            "recorded"
        },
        Status::Known => "known",
        Status::NoHub => "no hub",
        Status::Skipped(_) => "skipped",
    };
    push_pad(&mut line, &chars_of(word), 12);
    append_str(&mut line, " ");
    append(&mut line, &hub_col(a, check));
    append(&mut line, &git_col(a, check));
    line
}

fn lines_of_one(lines: &mut Vec<String>, a: &Adopted, width: usize, check: bool)
    ensures
        strings(final(lines)@) == strings(old(lines)@) + adopted_lines(*a, width as nat, check),
{
    let ghost start = strings(lines@);
    let line = head_line(a, width, check);
    push_text(lines, &line);
    let ghost first = strings(lines@);
    match &a.status {
        Status::Skipped(reason) => {
            let mut l: Vec<char> = Vec::new();
            push_pad(&mut l, &Vec::new(), width);
            append_str(&mut l, "  ");
            append(&mut l, &chars_of_string(reason));
            assert(l@ =~= spaces(width as nat) + "  "@ + reason@);
            push_text(lines, &l);
        },
        _ => {},
    }
    let ghost mid = strings(lines@);
    let mut j: usize = 0;
    while j < a.warnings.len()
        invariant
            j <= a.warnings.len(),
            strings(lines@) == mid + notes(strings(a.warnings@).take(j as int), width as nat),
        decreases a.warnings.len() - j,
    {
        let mut l: Vec<char> = Vec::new();
        push_pad(&mut l, &Vec::new(), width);
        append_str(&mut l, "  note: ");
        append(&mut l, &chars_of_string(&a.warnings[j]));
        assert(l@ =~= spaces(width as nat) + "  note: "@ + a.warnings@[j as int]@);
        push_text(lines, &l);
        assert(notes(strings(a.warnings@).take(j + 1), width as nat) =~= notes(strings(a.warnings@).take(j as int), width as nat).push(
            spaces(width as nat) + "  note: "@ + a.warnings@[j as int]@,
        ));
        j = j + 1;
    }
    assert(strings(a.warnings@).take(a.warnings.len() as int) =~= strings(a.warnings@));
    assert(strings(lines@) =~= start + adopted_lines(*a, width as nat, check));
}

/// What adopting a directory reports, a line at a time.
pub fn report(adopted: &[Adopted], check: bool) -> (r: Vec<String>)
    requires
        forall|i: int| 0 <= i < adopted@.len() ==> utf8_len(#[trigger] adopted@[i].name@) <= usize::MAX,
    ensures
        strings(r@) == report_text(adopted@, check),
{
    let mut width: usize = 0;
    let mut i: usize = 0;
    while i < adopted.len()
        invariant
            i <= adopted.len(),
            forall|k: int| 0 <= k < adopted@.len() ==> utf8_len(#[trigger] adopted@[k].name@) <= usize::MAX,
            width == name_bytes(adopted@.take(i as int)),
        decreases adopted.len() - i,
    {
        assert(adopted@.take(i + 1).drop_last() =~= adopted@.take(i as int));
        assert(adopted@.take(i + 1).last() == adopted@[i as int]);
        let b = bytes_of(&adopted[i].name);
        if b > width {
            width = b;
        }
        i = i + 1;
    }
    assert(adopted@.take(adopted.len() as int) =~= adopted@);
    let mut lines: Vec<String> = Vec::new();
    let mut recorded: usize = 0;
    let mut known: usize = 0;
    let mut without: usize = 0;
    let mut skipped: usize = 0;
    let mut read: usize = 0;
    let mut i: usize = 0;
    while i < adopted.len()
        invariant
            i <= adopted.len(),
            width == name_bytes(adopted@),
            strings(lines@) == all_lines(adopted@.take(i as int), width as nat, check),
            recorded == how_many(adopted@.take(i as int), |a: Adopted| a.status is Recorded),
            known == how_many(adopted@.take(i as int), |a: Adopted| a.status is Known),
            without == how_many(adopted@.take(i as int), |a: Adopted| a.status is NoHub),
            skipped == how_many(adopted@.take(i as int), |a: Adopted| a.status is Skipped),
            read == how_many(adopted@.take(i as int), |a: Adopted| reads_hub(a, check)),
            recorded <= i && known <= i && without <= i && skipped <= i && read <= i,
        decreases adopted.len() - i,
    {
        let a = &adopted[i];
        let ghost t = adopted@.take(i + 1);
        assert(t.drop_last() =~= adopted@.take(i as int));
        assert(t.last() == *a);
        lines_of_one(&mut lines, a, width, check);
        match &a.status {
            Status::Recorded => recorded = recorded + 1,
            Status::Known => known = known + 1,
            Status::NoHub => without = without + 1,
            Status::Skipped(_) => skipped = skipped + 1,
        }
        let no_hub = match &a.status {
            Status::NoHub => true,
            _ => false,
        };
        let is_skipped = match &a.status {
            Status::Skipped(_) => true,
            _ => false,
        };
        if !no_hub && a.hub.is_some() && !is_skipped && !check {
            read = read + 1;
        }
        i = i + 1;
    }
    assert(adopted@.take(adopted.len() as int) =~= adopted@);
    push_text(&mut lines, &Vec::new());
    let mut sum: Vec<char> = Vec::new();
    push_plural(&mut sum, adopted.len() as u64, "repository", "repositories");
    append_str(&mut sum, ": ");
    push_decimal(&mut sum, recorded as u64);
    append_str(&mut sum, " ");
    if check {
        append_str(&mut sum, "would be recorded");
    } else {
        append_str(&mut sum, "recorded");
    }
    append_str(&mut sum, ", ");
    push_decimal(&mut sum, known as u64);
    append_str(&mut sum, " known");
    if without > 0 {
        append_str(&mut sum, ", ");
        push_decimal(&mut sum, without as u64);
        append_str(&mut sum, " without a hub");
    }
    append_str(&mut sum, ", ");
    push_decimal(&mut sum, skipped as u64);
    append_str(&mut sum, " skipped; ");
    push_plural(&mut sum, read as u64, "hub", "hubs");
    append_str(&mut sum, " read.");
    assert(sum@ =~= tally_text(adopted@, check));
    push_text(&mut lines, &sum);
    if check {
        push_text(&mut lines, &chars_of("Nothing was written. Run again without --check to record them."));
    }
    assert(strings(lines@) =~= report_text(adopted@, check));
    lines
}

/// Where adopting looks, and where it looks for hubs: the directory given,
/// else the profile's roots; the hubs given, else the profile's. A profile
/// with no roots and no directory given is refused with how to set one.
pub fn roots_for(
    root: Option<&str>,
    hubs: Option<&str>,
    profile_name: &str,
    profile: &crate::profile::Profile,
) -> (r: Result<(Vec<String>, Option<String>), String>)
    ensures
        match r {
            Ok((roots, h)) => {
                &&& strings(roots@) == match root {
                    Some(d) => seq![d@],
                    None => strings(profile.roots@),
                }
                &&& match root {
                    Some(_) => true,
                    None => profile.roots@.len() > 0,
                }
                &&& crate::text::opt_chars(h) == match hubs {
                    Some(x) => Some(x@),
                    None => crate::text::opt_chars(profile.hubs),
                }
            },
            Err(m) => root is None && profile.roots@.len() == 0 && m@ == "profile '"@ + profile_name@
                + "' names no roots; give a directory, or set one with `rigger profile set "@ + profile_name@
                + " --root <dir>`"@,
        },
{
    let roots: Vec<String> = match root {
        Some(d) => {
            let v = vec![text_of(&chars_of(d))];
            assert(strings(v@) =~= seq![d@]);
            v
        },
        None => {
            if profile.roots.len() == 0 {
                let mut m = chars_of("profile '");
                append_str(&mut m, profile_name);
                append_str(&mut m, "' names no roots; give a directory, or set one with `rigger profile set ");
                append_str(&mut m, profile_name);
                append_str(&mut m, " --root <dir>`");
                return Err(text_of(&m));
            }
            let mut v: Vec<String> = Vec::new();
            let mut i: usize = 0;
            while i < profile.roots.len()
                invariant
                    i <= profile.roots.len(),
                    strings(v@) == strings(profile.roots@).take(i as int),
                decreases profile.roots.len() - i,
            {
                let ghost b = strings(v@);
                v.push(profile.roots[i].clone());
                assert(strings(v@) =~= b.push(profile.roots@[i as int]@));
                assert(strings(profile.roots@).take(i + 1) =~= strings(profile.roots@).take(i as int).push(
                    profile.roots@[i as int]@,
                ));
                i = i + 1;
            }
            assert(strings(profile.roots@).take(profile.roots.len() as int) =~= strings(profile.roots@));
            v
        },
    };
    let h = match hubs {
        Some(x) => Some(text_of(&chars_of(x))),
        None => match &profile.hubs {
            Some(x) => Some(x.clone()),
            None => None,
        },
    };
    Ok((roots, h))
}

} // verus!
