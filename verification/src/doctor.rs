//! What the record's health check finds, from facts the program reads:
//! which projects git has never been asked about, and which versions the
//! plan closed with no tag in git to say so - reported, never corrected -
//! and what closing a session does about the copy of the record.
use vstd::prelude::*;
use crate::calendar::{pad, push_pad};
use crate::context::{plural_text, push_plural};
use crate::db::{backup_state, backup_state_of, BACKUP_STALE_DAYS};
use crate::text::{
    append, append_str, chars_of, chars_of_string, decimal, joined, opt_chars, push_decimal, push_signed, signed_decimal,
    split_class, starts_with, stripped_prefix, strings, text_of, trim, trimmed, Class,
};

verus! {

/// A project as the check sees it: its name, whether git can answer for it
/// (a place the record keeps for itself cannot), whether it was ever
/// synced, and the versions the plan closed that no tag confirms.
#[derive(Debug, Clone)]
pub struct DoctorProject {
    pub name: String,
    pub reads_git: bool,
    pub synced: bool,
    pub shipped_without_a_tag: Vec<String>,
}

pub struct DoctorProjectView {
    pub name: Seq<char>,
    pub reads_git: bool,
    pub synced: bool,
    pub untagged: Seq<Seq<char>>,
}

pub open spec fn doctor_view(p: DoctorProject) -> DoctorProjectView {
    DoctorProjectView {
        name: p.name@,
        reads_git: p.reads_git,
        synced: p.synced,
        untagged: p.shipped_without_a_tag@.map_values(|v: String| v@),
    }
}

pub open spec fn doctor_views(ps: Seq<DoctorProject>) -> Seq<DoctorProjectView> {
    ps.map_values(|p: DoctorProject| doctor_view(p))
}

/// What the check finds: the projects never synced, and each version
/// closed without a tag with its project, in the order the projects come.
pub open spec fn diagnosis(ps: Seq<DoctorProjectView>) -> (Seq<Seq<char>>, Seq<(Seq<char>, Seq<char>)>)
    decreases ps.len(),
{
    if ps.len() == 0 {
        (Seq::empty(), Seq::empty())
    } else {
        let before = diagnosis(ps.drop_last());
        let p = ps.last();
        if !p.reads_git {
            before
        } else if !p.synced {
            (before.0.push(p.name), before.1)
        } else {
            (before.0, before.1 + p.untagged.map_values(|v: Seq<char>| (p.name, v)))
        }
    }
}

/// What the check found, to print.
#[derive(Debug, Clone, Default)]
pub struct Diagnosis {
    pub never_synced: Vec<String>,
    pub closed_without_a_tag: Vec<(String, String)>,
}

pub open spec fn pairs_view(v: Seq<(String, String)>) -> Seq<(Seq<char>, Seq<char>)> {
    v.map_values(|p: (String, String)| (p.0@, p.1@))
}

fn copy_text(s: &String) -> (r: String)
    ensures
        r@ == s@,
{
    text_of(&chars_of_string(s))
}

/// Where the plan and git disagree, and which projects git was never asked
/// about. A project git cannot answer for is in neither list: advising a
/// sync that cannot help it would stand there for ever.
pub fn diagnose(projects: &Vec<DoctorProject>) -> (r: Diagnosis)
    ensures
        (r.never_synced@.map_values(|s: String| s@), pairs_view(r.closed_without_a_tag@)) == diagnosis(doctor_views(projects@)),
{
    let ghost all = doctor_views(projects@);
    let mut never: Vec<String> = Vec::new();
    let mut untagged: Vec<(String, String)> = Vec::new();
    for i in 0..projects.len()
        invariant
            all == doctor_views(projects@),
            (never@.map_values(|s: String| s@), pairs_view(untagged@)) == diagnosis(all.take(i as int)),
    {
        assert(all.take(i + 1).drop_last() =~= all.take(i as int));
        assert(all.take(i + 1).last() == doctor_view(projects@[i as int]));
        let p = &projects[i];
        if !p.reads_git {
        } else if !p.synced {
            let ghost before = never@;
            never.push(copy_text(&p.name));
            assert(never@.map_values(|s: String| s@) =~= before.map_values(|s: String| s@).push(p.name@));
        } else {
            let ghost start = pairs_view(untagged@);
            let ghost vs = doctor_view(*p).untagged;
            for k in 0..p.shipped_without_a_tag.len()
                invariant
                    vs == doctor_view(*p).untagged,
                    pairs_view(untagged@) == start + vs.take(k as int).map_values(|v: Seq<char>| (p.name@, v)),
            {
                let ghost before = untagged@;
                assert(vs[k as int] == p.shipped_without_a_tag@[k as int]@);
                untagged.push((copy_text(&p.name), copy_text(&p.shipped_without_a_tag[k])));
                assert(pairs_view(untagged@) =~= pairs_view(before).push((p.name@, vs[k as int])));
                assert(vs.take(k + 1).map_values(|v: Seq<char>| (p.name@, v)) =~= vs.take(k as int).map_values(
                    |v: Seq<char>| (p.name@, v),
                ).push((p.name@, vs[k as int])));
            }
            assert(vs.take(vs.len() as int) =~= vs);
        }
    }
    assert(all.take(all.len() as int) =~= all);
    Diagnosis { never_synced: never, closed_without_a_tag: untagged }
}

/// Whether a name is of a project git answers for, synced or not.
pub open spec fn git_project(ps: Seq<DoctorProjectView>, name: Seq<char>, synced: bool) -> bool {
    exists|j: int| 0 <= j < ps.len() && #[trigger] ps[j].name == name && ps[j].reads_git && ps[j].synced == synced
}

/// Nothing the check lists is a project git cannot answer for: a project
/// never synced is one git answers for, and so is the project of every
/// version closed without a tag.
pub proof fn law_a_service_project_is_never_listed(ps: Seq<DoctorProjectView>)
    ensures
        forall|i: int| 0 <= i < diagnosis(ps).0.len() ==> git_project(ps, #[trigger] diagnosis(ps).0[i], false),
        forall|i: int| 0 <= i < diagnosis(ps).1.len() ==> git_project(ps, #[trigger] diagnosis(ps).1[i].0, true),
    decreases ps.len(),
{
    if ps.len() > 0 {
        let rest = ps.drop_last();
        law_a_service_project_is_never_listed(rest);
        let d = diagnosis(ps);
        let b = diagnosis(rest);
        let n = ps.len() - 1;
        assert forall|i: int| 0 <= i < d.0.len() implies git_project(ps, #[trigger] d.0[i], false) by {
            if i < b.0.len() {
                assert(d.0[i] == b.0[i]);
                assert(git_project(rest, b.0[i], false));
                let j = choose|j: int| 0 <= j < rest.len() && #[trigger] rest[j].name == b.0[i] && rest[j].reads_git && rest[j].synced == false;
                assert(rest[j] == ps[j]);
            } else {
                assert(d.0[i] == ps[n].name);
                assert(ps[n].name == d.0[i]);
            }
        }
        assert forall|i: int| 0 <= i < d.1.len() implies git_project(ps, #[trigger] d.1[i].0, true) by {
            if i < b.1.len() {
                assert(d.1[i] == b.1[i]);
                assert(git_project(rest, b.1[i].0, true));
                let j = choose|j: int| 0 <= j < rest.len() && #[trigger] rest[j].name == b.1[i].0 && rest[j].reads_git && rest[j].synced == true;
                assert(rest[j] == ps[j]);
            } else {
                assert(d.1[i].0 == ps[n].name);
                assert(ps[n].name == d.1[i].0);
            }
        }
    }
}

/// What closing a session does around the summary: copy the record when
/// the newest copy is a day old or there is none, the day the session ends
/// on, and the diary entry's title when a heading was given.
pub open spec fn close_plan(backup_age: Option<i64>, at: Seq<char>, heading: Option<Seq<char>>) -> (bool, Seq<char>, Option<Seq<char>>) {
    let day = split_class(at, Class::Is('T'))[0];
    (
        !(backup_age matches Some(d) && d < BACKUP_STALE_DAYS),
        day,
        match heading {
            Some(h) => if trim(h).len() > 0 {
                Some(day + " · "@ + trim(h))
            } else {
                None
            },
            None => None,
        },
    )
}

/// What closing a session at `at` does around its summary.
pub fn session_close(backup_age: Option<i64>, at: &str, heading: Option<&str>) -> (r: (bool, String, Option<String>))
    ensures
        (r.0, r.1@, opt_chars(r.2)) == close_plan(backup_age, at@, match heading {
            Some(h) => Some(h@),
            None => None,
        }),
{
    let back_up = match backup_age {
        Some(d) => !(d < BACKUP_STALE_DAYS),
        None => true,
    };
    let parts = crate::text::split_by(&chars_of(at), Class::Is('T'));
    proof {
        crate::text::lemma_split_nonempty(at@, Class::Is('T'));
    }
    let day = parts[0].clone();
    let title = match heading {
        Some(h) => {
            let t = trimmed(&chars_of(h));
            if t.len() > 0 {
                let mut out = day.clone();
                append_str(&mut out, " · ");
                crate::text::append(&mut out, &t);
                Some(text_of(&out))
            } else {
                None
            }
        },
        None => None,
    };
    (back_up, text_of(&day), title)
}


/// How long ago a copy was made, in days.
pub open spec fn days_ago_text(d: i64) -> Seq<char> {
    if d == 0 {
        "today"@
    } else if d == 1 {
        "yesterday"@
    } else {
        signed_decimal(d as int) + " days ago"@
    }
}

/// What the report adds when the newest copy is stale or old.
pub open spec fn backup_verdict(age: Option<i64>) -> Seq<char> {
    if backup_state_of(age) == "old"@ {
        " - older than a week; run `rigger backup`"@
    } else if backup_state_of(age) == "stale"@ {
        " - older than a day; run `rigger backup`"@
    } else {
        Seq::empty()
    }
}

/// The report's line on the copies of the record.
pub open spec fn backup_line_text(age: Option<i64>, copies: nat) -> Seq<char> {
    match age {
        None => "backup:    none - one file, no copy of it; run `rigger backup`"@,
        Some(d) => "backup:    "@ + days_ago_text(d) + ", "@ + plural_text(copies, "copy"@, "copies"@) + " kept"@ + backup_verdict(age),
    }
}

/// The report's line on the copies of the record: how old the newest is,
/// how many are kept, and the advice when it is a day old or more.
pub fn backup_line(age: Option<i64>, copies: usize) -> (r: String)
    ensures
        r@ == backup_line_text(age, copies as nat),
{
    proof {
        reveal_strlit("old");
        reveal_strlit("stale");
        reveal_strlit("fresh");
        reveal_strlit("none");
    }
    let d = match age {
        None => {
            return text_of(&chars_of("backup:    none - one file, no copy of it; run `rigger backup`"));
        },
        Some(d) => d,
    };
    let mut out = chars_of("backup:    ");
    if d == 0 {
        append_str(&mut out, "today");
    } else if d == 1 {
        append_str(&mut out, "yesterday");
    } else {
        push_signed(&mut out, d);
        append_str(&mut out, " days ago");
    }
    append_str(&mut out, ", ");
    push_plural(&mut out, copies as u64, "copy", "copies");
    append_str(&mut out, " kept");
    let state = chars_of(backup_state(age));
    if crate::text::same_str(&state, "old") {
        append_str(&mut out, " - older than a week; run `rigger backup`");
    } else if crate::text::same_str(&state, "stale") {
        append_str(&mut out, " - older than a day; run `rigger backup`");
    }
    text_of(&out)
}

/// A version the plan closed with no tag, as the report lists it.
pub open spec fn untagged_line(p: (Seq<char>, Seq<char>)) -> Seq<char> {
    "  "@ + pad(p.0, 12) + " "@ + p.1
}

/// What the report says of the findings: the projects never synced, with
/// the advice to sync them, and the versions closed without a tag, with the
/// reminder that a tag would settle it; nothing of a list that is empty.
pub open spec fn findings_text(never: Seq<Seq<char>>, untagged: Seq<(Seq<char>, Seq<char>)>) -> Seq<Seq<char>> {
    (if never.len() == 0 {
        Seq::empty()
    } else {
        seq![
            "\nnever synced ("@ + decimal(never.len()) + "): "@ + joined(never, ", "@),
            "  run `rigger sync` to read what git says about them"@,
        ]
    }) + (if untagged.len() == 0 {
        Seq::empty()
    } else {
        seq!["\nclosed in the plan, no tag in git ("@ + decimal(untagged.len()) + "):"@] + untagged.map_values(
            |p: (Seq<char>, Seq<char>)| untagged_line(p),
        ) + seq!["  a tag would settle it; rigger does not change what you wrote"@]
    })
}

/// The report's lines on what the check found.
pub fn findings_lines(d: &Diagnosis) -> (r: Vec<String>)
    ensures
        strings(r@) == findings_text(strings(d.never_synced@), pairs_view(d.closed_without_a_tag@)),
{
    let ghost never = strings(d.never_synced@);
    let ghost untagged = pairs_view(d.closed_without_a_tag@);
    let mut out: Vec<String> = Vec::new();
    if d.never_synced.len() > 0 {
        let mut line = chars_of("\nnever synced (");
        push_decimal(&mut line, d.never_synced.len() as u64);
        append_str(&mut line, "): ");
        let ghost start = line@;
        for i in 0..d.never_synced.len()
            invariant
                never == strings(d.never_synced@),
                line@ == start + joined(never.take(i as int), ", "@),
        {
            assert(never.take(i + 1).drop_last() =~= never.take(i as int));
            if i > 0 {
                append_str(&mut line, ", ");
            } else {
                assert(never.take(1) =~= seq![never[0]]);
            }
            append(&mut line, &chars_of_string(&d.never_synced[i]));
        }
        assert(never.take(never.len() as int) =~= never);
        out.push(text_of(&line));
        out.push(text_of(&chars_of("  run `rigger sync` to read what git says about them")));
    }
    let ghost head = strings(out@);
    if d.closed_without_a_tag.len() > 0 {
        let mut first = chars_of("\nclosed in the plan, no tag in git (");
        push_decimal(&mut first, d.closed_without_a_tag.len() as u64);
        append_str(&mut first, "):");
        out.push(text_of(&first));
        for i in 0..d.closed_without_a_tag.len()
            invariant
                untagged == pairs_view(d.closed_without_a_tag@),
                strings(out@) == head + seq![first@] + untagged.take(i as int).map_values(
                    |p: (Seq<char>, Seq<char>)| untagged_line(p),
                ),
        {
            let ghost before = strings(out@);
            let pair = &d.closed_without_a_tag[i];
            assert(untagged[i as int] == (pair.0@, pair.1@));
            let mut line = chars_of("  ");
            push_pad(&mut line, &chars_of_string(&pair.0), 12);
            append_str(&mut line, " ");
            append(&mut line, &chars_of_string(&pair.1));
            out.push(text_of(&line));
            assert(strings(out@) =~= before.push(line@));
            assert(untagged.take(i + 1).map_values(|p: (Seq<char>, Seq<char>)| untagged_line(p)) =~= untagged.take(
                i as int,
            ).map_values(|p: (Seq<char>, Seq<char>)| untagged_line(p)).push(untagged_line(untagged[i as int])));
        }
        assert(untagged.take(untagged.len() as int) =~= untagged);
        let ghost mid = strings(out@);
        out.push(text_of(&chars_of("  a tag would settle it; rigger does not change what you wrote")));
        assert(strings(out@) =~= mid.push("  a tag would settle it; rigger does not change what you wrote"@));
    }
    assert(strings(out@) =~= findings_text(never, untagged));
    out
}

/// What reading one generated file of a hub found.
#[derive(Debug, Clone, Copy, PartialEq, Eq)]
pub enum HubFile {
    /// There is no such file, or it could not be read.
    Absent,
    /// It is generated and says what the record would write.
    Matches,
    /// It is generated, and was changed since.
    Edited,
    /// It carries no mark of being generated: a person keeps it.
    ByHand,
}

/// One generated file of a hub, by name, and what reading it found.
#[derive(Debug, Clone)]
pub struct HubFileSeen {
    pub name: String,
    pub state: HubFile,
}

/// A project's hub as the check finds it: whether git answers for the
/// project, whether the record names a place for its hub, whether that
/// place is there, and each generated file read from it.
#[derive(Debug, Clone)]
pub struct HubSeen {
    pub project: String,
    pub reads_git: bool,
    pub recorded: bool,
    pub present: bool,
    pub files: Vec<HubFileSeen>,
}

pub struct HubSeenView {
    pub project: Seq<char>,
    pub reads_git: bool,
    pub recorded: bool,
    pub present: bool,
    pub files: Seq<(Seq<char>, HubFile)>,
}

impl View for HubSeen {
    type V = HubSeenView;

    open spec fn view(&self) -> HubSeenView {
        HubSeenView {
            project: self.project@,
            reads_git: self.reads_git,
            recorded: self.recorded,
            present: self.present,
            files: self.files@.map_values(|f: HubFileSeen| (f.name@, f.state)),
        }
    }
}

/// A hub the record cannot vouch for: the project, the file (`-` for the
/// whole hub), and why.
#[derive(Debug, Clone)]
pub struct Drift {
    pub project: String,
    pub file: String,
    pub why: &'static str,
}

pub open spec fn drift_view(d: Drift) -> (Seq<char>, Seq<char>, Seq<char>) {
    (d.project@, d.file@, d.why@)
}

pub open spec fn drifts_view(ds: Seq<Drift>) -> Seq<(Seq<char>, Seq<char>, Seq<char>)> {
    ds.map_values(|d: Drift| drift_view(d))
}

/// The files that were changed since they were generated, in the order read.
pub open spec fn edited_files(project: Seq<char>, fs: Seq<(Seq<char>, HubFile)>) -> Seq<(Seq<char>, Seq<char>, Seq<char>)>
    decreases fs.len(),
{
    if fs.len() == 0 {
        Seq::empty()
    } else if fs.last().1 == HubFile::Edited {
        edited_files(project, fs.drop_last()).push((project, fs.last().0, "edited since it was generated"@))
    } else {
        edited_files(project, fs.drop_last())
    }
}

/// The names of the files a person keeps, in the order read.
pub open spec fn kept_by_hand(fs: Seq<(Seq<char>, HubFile)>) -> Seq<Seq<char>>
    decreases fs.len(),
{
    if fs.len() == 0 {
        Seq::empty()
    } else if fs.last().1 == HubFile::ByHand {
        kept_by_hand(fs.drop_last()).push(fs.last().0)
    } else {
        kept_by_hand(fs.drop_last())
    }
}

/// What one project adds to the list: nothing for a place the record keeps
/// for itself; the whole hub when no place is recorded or nothing is there;
/// else each edited file, then one entry naming every file kept by hand.
pub open spec fn project_drift(p: HubSeenView) -> Seq<(Seq<char>, Seq<char>, Seq<char>)> {
    if !p.reads_git {
        Seq::empty()
    } else if !p.recorded {
        seq![(p.project, "-"@, "no hub recorded; import or export one"@)]
    } else if !p.present {
        seq![(p.project, "-"@, "the hub is not where the record says"@)]
    } else {
        edited_files(p.project, p.files) + if kept_by_hand(p.files).len() == 0 {
            Seq::empty()
        } else {
            seq![(p.project, joined(kept_by_hand(p.files), ", "@), "kept by hand; `rigger export --adopt` hands it over"@)]
        }
    }
}

pub open spec fn hub_drift_of(ps: Seq<HubSeenView>) -> Seq<(Seq<char>, Seq<char>, Seq<char>)>
    decreases ps.len(),
{
    if ps.len() == 0 {
        Seq::empty()
    } else {
        hub_drift_of(ps.drop_last()) + project_drift(ps.last())
    }
}

fn copy_name(s: &String) -> (r: String)
    ensures
        r@ == s@,
{
    text_of(&chars_of_string(s))
}

fn one_drift(project: &String, files: &Vec<HubFileSeen>, out: &mut Vec<Drift>)
    ensures
        drifts_view(final(out)@) == drifts_view(old(out)@) + edited_files(project@, files@.map_values(
            |f: HubFileSeen| (f.name@, f.state),
        )) + if kept_by_hand(files@.map_values(|f: HubFileSeen| (f.name@, f.state))).len() == 0 {
            Seq::empty()
        } else {
            seq![(project@, joined(kept_by_hand(files@.map_values(|f: HubFileSeen| (f.name@, f.state))), ", "@), "kept by hand; `rigger export --adopt` hands it over"@)]
        },
{
    let ghost fs = files@.map_values(|f: HubFileSeen| (f.name@, f.state));
    let ghost start = drifts_view(out@);
    let mut hand: Vec<char> = Vec::new();
    let mut any: bool = false;
    for i in 0..files.len()
        invariant
            fs == files@.map_values(|f: HubFileSeen| (f.name@, f.state)),
            drifts_view(out@) == start + edited_files(project@, fs.take(i as int)),
            hand@ == joined(kept_by_hand(fs.take(i as int)), ", "@),
            any == (kept_by_hand(fs.take(i as int)).len() > 0),
    {
        assert(fs.take(i + 1).drop_last() =~= fs.take(i as int));
        assert(fs[i as int] == (files@[i as int].name@, files@[i as int].state));
        let f = &files[i];
        let edited = match f.state {
            HubFile::Edited => true,
            _ => false,
        };
        let by_hand = match f.state {
            HubFile::ByHand => true,
            _ => false,
        };
        if edited {
            let ghost before = out@;
            out.push(Drift { project: copy_name(project), file: copy_name(&f.name), why: "edited since it was generated" });
            assert(drifts_view(out@) =~= drifts_view(before).push(drift_view(out@.last())));
        } else if by_hand {
            let ghost ks = kept_by_hand(fs.take(i as int));
            assert(kept_by_hand(fs.take(i + 1)) == ks.push(f.name@));
            assert(ks.push(f.name@).drop_last() =~= ks);
            if any {
                append_str(&mut hand, ", ");
            } else {
                assert(kept_by_hand(fs.take(i + 1)) =~= seq![f.name@]);
            }
            append(&mut hand, &chars_of_string(&f.name));
            any = true;
        }
    }
    assert(fs.take(files.len() as int) =~= fs);
    if any {
        let ghost before = out@;
        out.push(Drift { project: copy_name(project), file: text_of(&hand), why: "kept by hand; `rigger export --adopt` hands it over" });
        assert(drifts_view(out@) =~= drifts_view(before).push(drift_view(out@.last())));
    }
}

/// The hubs the record cannot vouch for: a generated file edited by hand
/// has stopped being a view of the record, and a hub still kept by hand is
/// one it never could. Projects git cannot answer for have no hub to check.
pub fn hub_drift(projects: &Vec<HubSeen>) -> (r: Vec<Drift>)
    ensures
        drifts_view(r@) == hub_drift_of(projects@.map_values(|p: HubSeen| p@)),
{
    let ghost ps = projects@.map_values(|p: HubSeen| p@);
    let mut out: Vec<Drift> = Vec::new();
    for i in 0..projects.len()
        invariant
            ps == projects@.map_values(|p: HubSeen| p@),
            drifts_view(out@) == hub_drift_of(ps.take(i as int)),
    {
        assert(ps.take(i + 1).drop_last() =~= ps.take(i as int));
        assert(ps[i as int] == projects@[i as int]@);
        let p = &projects[i];
        let ghost before = drifts_view(out@);
        if !p.reads_git {
            assert(project_drift(ps[i as int]) =~= Seq::empty());
        } else if !p.recorded {
            out.push(Drift { project: copy_name(&p.project), file: text_of(&chars_of("-")), why: "no hub recorded; import or export one" });
        } else if !p.present {
            out.push(Drift { project: copy_name(&p.project), file: text_of(&chars_of("-")), why: "the hub is not where the record says" });
        } else {
            one_drift(&p.project, &p.files, &mut out);
        }
        assert(drifts_view(out@) =~= before + project_drift(ps[i as int]));
    }
    assert(ps.take(projects.len() as int) =~= ps);
    out
}

/// A hub the record cannot vouch for, as the report lists it.
pub open spec fn drift_line(d: (Seq<char>, Seq<char>, Seq<char>)) -> Seq<char> {
    "  "@ + pad(d.0, 12) + " "@ + pad(d.1, 14) + " "@ + d.2
}

/// Whether the list holds an edited file, which the advice on importing
/// or exporting fits; a hub the record has never seen does not.
pub open spec fn any_edit(ds: Seq<(Seq<char>, Seq<char>, Seq<char>)>) -> bool {
    exists|i: int| 0 <= i < ds.len() && #[trigger] ds[i].1 != "-"@ && starts_with(ds[i].2, "edited"@)
}

/// What the report says of the hubs: a blank line, then that every
/// generated file matches, or the list with the advice where an edit is in it.
pub open spec fn drift_text(ds: Seq<(Seq<char>, Seq<char>, Seq<char>)>) -> Seq<Seq<char>> {
    if ds.len() == 0 {
        seq![Seq::empty(), "hubs: every generated file matches the record"@]
    } else {
        seq![Seq::empty(), "hubs the record cannot vouch for ("@ + decimal(ds.len()) + "):"@] + ds.map_values(
            |d: (Seq<char>, Seq<char>, Seq<char>)| drift_line(d),
        ) + if any_edit(ds) {
            seq!["  edited: `rigger import` takes the edit into the record; `rigger export` discards it"@]
        } else {
            Seq::empty()
        }
    }
}

/// The report's lines on the hubs.
pub fn drift_lines(drift: &Vec<Drift>) -> (r: Vec<String>)
    ensures
        strings(r@) == drift_text(drifts_view(drift@)),
{
    let ghost ds = drifts_view(drift@);
    let mut out: Vec<String> = Vec::new();
    out.push(text_of(&Vec::new()));
    if drift.len() == 0 {
        out.push(text_of(&chars_of("hubs: every generated file matches the record")));
        assert(strings(out@) =~= drift_text(ds));
        return out;
    }
    let mut first = chars_of("hubs the record cannot vouch for (");
    push_decimal(&mut first, drift.len() as u64);
    append_str(&mut first, "):");
    out.push(text_of(&first));
    let ghost head = strings(out@);
    let mut edit = false;
    for i in 0..drift.len()
        invariant
            ds == drifts_view(drift@),
            strings(out@) == head + ds.take(i as int).map_values(|d: (Seq<char>, Seq<char>, Seq<char>)| drift_line(d)),
            edit == any_edit(ds.take(i as int)),
    {
        let ghost before = strings(out@);
        let d = &drift[i];
        assert(ds[i as int] == (d.project@, d.file@, d.why@));
        let file = chars_of_string(&d.file);
        let why = chars_of(d.why);
        let mut line = chars_of("  ");
        push_pad(&mut line, &chars_of_string(&d.project), 12);
        append_str(&mut line, " ");
        push_pad(&mut line, &file, 14);
        append_str(&mut line, " ");
        append(&mut line, &why);
        out.push(text_of(&line));
        assert(strings(out@) =~= before.push(line@));
        let ghost prev = ds.take(i as int);
        let ghost next = ds.take(i + 1);
        assert(next.map_values(|d: (Seq<char>, Seq<char>, Seq<char>)| drift_line(d)) =~= prev.map_values(
            |d: (Seq<char>, Seq<char>, Seq<char>)| drift_line(d),
        ).push(drift_line(ds[i as int])));
        let this = !crate::text::same_str(&file, "-") && stripped_prefix(&why, "edited").is_some();
        assert(this == (ds[i as int].1 != "-"@ && starts_with(ds[i as int].2, "edited"@)));
        proof {
            if edit {
                let j = choose|j: int| 0 <= j < prev.len() && #[trigger] prev[j].1 != "-"@ && starts_with(prev[j].2, "edited"@);
                assert(next[j] == prev[j]);
            }
            if this {
                assert(next[i as int] == ds[i as int]);
            }
            if any_edit(next) {
                let j = choose|j: int| 0 <= j < next.len() && #[trigger] next[j].1 != "-"@ && starts_with(next[j].2, "edited"@);
                if j < i {
                    assert(prev[j] == next[j]);
                }
            }
        }
        edit = edit || this;
    }
    assert(ds.take(drift.len() as int) =~= ds);
    assert(head =~= seq![Seq::empty(), "hubs the record cannot vouch for ("@ + decimal(ds.len()) + "):"@]);
    let ghost mid = strings(out@);
    if edit {
        out.push(text_of(&chars_of("  edited: `rigger import` takes the edit into the record; `rigger export` discards it")));
        assert(strings(out@) =~= mid.push(
            "  edited: `rigger import` takes the edit into the record; `rigger export` discards it"@,
        ));
    } else {
        assert(strings(out@) =~= mid + Seq::<Seq<char>>::empty());
    }
    assert(strings(out@) =~= drift_text(ds));
    out
}

/// What ending a session reports, from what the program gathered: the
/// project, when the session opened, whether anything was recorded in it,
/// the versions shipped and how many of each kind of event, the tasks
/// closed, the next step left, where the record was copied to, what the
/// ritual still asks for, and the diary file the entry went to.
#[derive(Debug, Clone)]
pub struct SessionReport {
    pub project: String,
    pub started_at: String,
    pub empty: bool,
    pub shipped: Vec<String>,
    pub decisions: usize,
    pub findings: usize,
    pub pitfalls: usize,
    pub changes: usize,
    pub questions: usize,
    pub tasks_closed: usize,
    pub next_step: Option<String>,
    pub copied_to: Option<String>,
    pub missing: Vec<String>,
    pub diary: Option<String>,
}

/// A count as the report names it, when there is one to name.
pub open spec fn counted(n: nat, one: Seq<char>, many: Seq<char>) -> Seq<Seq<char>> {
    if n > 0 {
        seq![plural_text(n, one, many)]
    } else {
        Seq::empty()
    }
}

/// What the session recorded, kind by kind, leaving out the kinds it has none of.
pub open spec fn recorded_kinds(r: SessionReport) -> Seq<Seq<char>> {
    counted(r.decisions as nat, "decision"@, "decisions"@) + counted(r.findings as nat, "finding"@, "findings"@) + counted(
        r.pitfalls as nat,
        "pitfall"@,
        "pitfalls"@,
    ) + counted(r.changes as nat, "change"@, "changes"@) + counted(r.questions as nat, "question"@, "questions"@)
}

/// The lines on what was done in the session.
pub open spec fn session_body(r: SessionReport) -> Seq<Seq<char>> {
    if r.empty {
        seq!["Nothing was recorded in it."@]
    } else {
        (if r.shipped.len() > 0 {
            seq!["shipped "@ + joined(strings(r.shipped@), ", "@)]
        } else {
            Seq::empty()
        }) + (if recorded_kinds(r).len() > 0 {
            seq!["recorded "@ + joined(recorded_kinds(r), ", "@)]
        } else {
            Seq::empty()
        }) + (if r.tasks_closed > 0 {
            seq!["closed "@ + plural_text(r.tasks_closed as nat, "task"@, "tasks"@)]
        } else {
            Seq::empty()
        })
    }
}

/// The report on a session that was closed.
pub open spec fn session_report_text(r: SessionReport) -> Seq<Seq<char>> {
    seq!["Session on "@ + r.project@ + " closed, open since "@ + r.started_at@ + "."@, Seq::empty()] + session_body(r)
        + session_tail(r)
}

/// The lines after what was done: the next step, the copy of the record,
/// what the ritual still asks for, and where the diary entry went.
pub open spec fn session_tail(r: SessionReport) -> Seq<Seq<char>> {
    (match r.next_step {
        Some(n) => seq!["next: "@ + trim(crate::context::first_filled(crate::text::lines(n@)))],
        None => Seq::empty(),
    }) + (match r.copied_to {
        Some(t) => seq!["copied the database to "@ + t@],
        None => Seq::empty(),
    }) + (if r.missing.len() > 0 {
        seq![Seq::empty(), "The ritual asks for:"@] + strings(r.missing@).map_values(|m: Seq<char>| "  "@ + m)
    } else {
        Seq::empty()
    }) + seq![
        match r.diary {
            Some(p) => "\nDiary entry appended to "@ + p@,
            None => "\nWrite it into a diary with: rigger session end "@ + r.project@ + " --diary <file>"@,
        },
    ]
}

fn join_strings(v: &Vec<String>, sep: &str) -> (r: Vec<char>)
    ensures
        r@ == joined(strings(v@), sep@),
{
    let ghost all = strings(v@);
    let mut out: Vec<char> = Vec::new();
    for i in 0..v.len()
        invariant
            all == strings(v@),
            out@ == joined(all.take(i as int), sep@),
    {
        assert(all.take(i + 1).drop_last() =~= all.take(i as int));
        if i > 0 {
            append_str(&mut out, sep);
        } else {
            assert(all.take(1) =~= seq![all[0]]);
        }
        append(&mut out, &chars_of_string(&v[i]));
    }
    assert(all.take(v.len() as int) =~= all);
    out
}

fn push_count(parts: &mut Vec<Vec<char>>, n: usize, one: &str, many: &str)
    ensures
        crate::text::views(final(parts)@) == crate::text::views(old(parts)@) + counted(n as nat, one@, many@),
{
    if n > 0 {
        let mut p: Vec<char> = Vec::new();
        push_plural(&mut p, n as u64, one, many);
        let ghost before = parts@;
        parts.push(p);
        assert(crate::text::views(parts@) =~= crate::text::views(before).push(p@));
    } else {
        assert(crate::text::views(parts@) =~= crate::text::views(old(parts)@) + Seq::<Seq<char>>::empty());
    }
}

fn push_text(out: &mut Vec<String>, line: &Vec<char>)
    ensures
        strings(final(out)@) == strings(old(out)@).push(line@),
{
    out.push(text_of(line));
    assert(strings(out@) =~= strings(old(out)@).push(line@));
}

/// The lines on what was done in the session.
fn session_body_lines(r: &SessionReport, out: &mut Vec<String>)
    ensures
        strings(final(out)@) == strings(old(out)@) + session_body(*r),
{
    let ghost start = strings(out@);
    if r.empty {
        push_text(out, &chars_of("Nothing was recorded in it."));
        assert(strings(out@) =~= start + session_body(*r));
        return;
    }
    if r.shipped.len() > 0 {
        let mut l = chars_of("shipped ");
        append(&mut l, &join_strings(&r.shipped, ", "));
        push_text(out, &l);
    }
    let mut parts: Vec<Vec<char>> = Vec::new();
    assert(crate::text::views(parts@) =~= Seq::<Seq<char>>::empty());
    push_count(&mut parts, r.decisions, "decision", "decisions");
    push_count(&mut parts, r.findings, "finding", "findings");
    push_count(&mut parts, r.pitfalls, "pitfall", "pitfalls");
    push_count(&mut parts, r.changes, "change", "changes");
    push_count(&mut parts, r.questions, "question", "questions");
    assert(crate::text::views(parts@) =~= recorded_kinds(*r));
    if parts.len() > 0 {
        let mut l = chars_of("recorded ");
        append(&mut l, &crate::text::join_with(&parts, ", "));
        push_text(out, &l);
    }
    if r.tasks_closed > 0 {
        let mut l = chars_of("closed ");
        push_plural(&mut l, r.tasks_closed as u64, "task", "tasks");
        push_text(out, &l);
    }
    assert(strings(out@) =~= start + session_body(*r));
}

/// The report on a session that was closed, line by line.
pub fn session_report(r: &SessionReport) -> (out: Vec<String>)
    ensures
        strings(out@) == session_report_text(*r),
{
    let mut out: Vec<String> = Vec::new();
    let mut first = chars_of("Session on ");
    append(&mut first, &chars_of_string(&r.project));
    append_str(&mut first, " closed, open since ");
    append(&mut first, &chars_of_string(&r.started_at));
    append_str(&mut first, ".");
    push_text(&mut out, &first);
    push_text(&mut out, &Vec::new());
    session_body_lines(r, &mut out);
    session_tail_lines(r, &mut out);
    assert(strings(out@) =~= session_report_text(*r));
    out
}

fn session_tail_lines(r: &SessionReport, out: &mut Vec<String>)
    ensures
        strings(final(out)@) == strings(old(out)@) + session_tail(*r),
{
    let ghost start = strings(out@);
    if let Some(n) = &r.next_step {
        let mut l = chars_of("next: ");
        append(&mut l, &crate::owner::first_line_of(&chars_of_string(n)));
        push_text(out, &l);
    }
    if let Some(t) = &r.copied_to {
        let mut l = chars_of("copied the database to ");
        append(&mut l, &chars_of_string(t));
        push_text(out, &l);
    }
    if r.missing.len() > 0 {
        push_text(out, &Vec::new());
        push_text(out, &chars_of("The ritual asks for:"));
        let ghost head = strings(out@);
        let ghost ms = strings(r.missing@);
        for i in 0..r.missing.len()
            invariant
                ms == strings(r.missing@),
                strings(out@) == head + ms.take(i as int).map_values(|m: Seq<char>| "  "@ + m),
        {
            let mut l = chars_of("  ");
            append(&mut l, &chars_of_string(&r.missing[i]));
            push_text(out, &l);
            assert(ms.take(i + 1).map_values(|m: Seq<char>| "  "@ + m) =~= ms.take(i as int).map_values(
                |m: Seq<char>| "  "@ + m,
            ).push("  "@ + ms[i as int]));
        }
        assert(ms.take(ms.len() as int) =~= ms);
    }
    let last = match &r.diary {
        Some(p) => {
            let mut l = chars_of("\nDiary entry appended to ");
            append(&mut l, &chars_of_string(p));
            l
        },
        None => {
            let mut l = chars_of("\nWrite it into a diary with: rigger session end ");
            append(&mut l, &chars_of_string(&r.project));
            append_str(&mut l, " --diary <file>");
            l
        },
    };
    push_text(out, &last);
    assert(strings(out@) =~= start + session_tail(*r));
}

/// What a hook says when a session closes: nothing when the ritual is
/// complete, else how much was recorded and what is still asked for.
pub open spec fn reminder_text(project: Seq<char>, recorded: nat, missing: Seq<Seq<char>>) -> Seq<Seq<char>> {
    if missing.len() == 0 {
        Seq::empty()
    } else {
        seq!["Session on "@ + project + " closed - "@ + plural_text(recorded, "event"@, "events"@) + ":"@] + missing.map_values(
            |m: Seq<char>| "  "@ + m,
        )
    }
}

pub fn reminder_lines(project: &str, recorded: usize, missing: &Vec<String>) -> (out: Vec<String>)
    ensures
        strings(out@) == reminder_text(project@, recorded as nat, strings(missing@)),
{
    let mut out: Vec<String> = Vec::new();
    if missing.len() == 0 {
        assert(strings(out@) =~= Seq::<Seq<char>>::empty());
        return out;
    }
    let mut first = chars_of("Session on ");
    append_str(&mut first, project);
    append_str(&mut first, " closed - ");
    push_plural(&mut first, recorded as u64, "event", "events");
    append_str(&mut first, ":");
    push_text(&mut out, &first);
    assert(strings(out@) =~= seq![first@]);
    let ghost head = strings(out@);
    let ghost ms = strings(missing@);
    for i in 0..missing.len()
        invariant
            ms == strings(missing@),
            strings(out@) == head + ms.take(i as int).map_values(|m: Seq<char>| "  "@ + m),
    {
        let mut l = chars_of("  ");
        append(&mut l, &chars_of_string(&missing[i]));
        push_text(&mut out, &l);
        assert(ms.take(i + 1).map_values(|m: Seq<char>| "  "@ + m) =~= ms.take(i as int).map_values(
            |m: Seq<char>| "  "@ + m,
        ).push("  "@ + ms[i as int]));
    }
    assert(ms.take(ms.len() as int) =~= ms);
    out
}

/// What ending a session says when none is open.
pub open spec fn no_session_text(project: Seq<char>) -> Seq<Seq<char>> {
    seq!["No session is open on "@ + project + "."@, "Open one with: rigger session start "@ + project]
}

pub fn no_session_lines(project: &str) -> (out: Vec<String>)
    ensures
        strings(out@) == no_session_text(project@),
{
    let mut out: Vec<String> = Vec::new();
    let mut a = chars_of("No session is open on ");
    append_str(&mut a, project);
    append_str(&mut a, ".");
    push_text(&mut out, &a);
    let mut b = chars_of("Open one with: rigger session start ");
    append_str(&mut b, project);
    push_text(&mut out, &b);
    assert(strings(out@) =~= no_session_text(project@));
    out
}

} // verus!
