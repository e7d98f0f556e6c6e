//! Importing a hub into the record: the rules an import goes by, and what
//! it did. Writing the record is the program's work.
use vstd::prelude::*;
use crate::db::Change;
use crate::hub::Prose;
use crate::order::{compare_strings, lemma_text_order, text_order};
use crate::profile::rising;
use crate::text::{append, append_str, chars_of, strings, text_of};

verus! {

#[derive(Debug, Default)]
pub struct Report {
    pub versions_added: u32,
    pub versions_updated: u32,
    pub tasks_added: u32,
    pub tasks_updated: u32,
    /// Struck from the hub since it was last read.
    pub tasks_dropped: u32,
    pub versions_dropped: u32,
    pub questions_withdrawn: u32,
    pub decisions_added: u32,
    pub questions_added: u32,
    /// Wishes taken out of the wishes file and into the record.
    pub wishes_added: u32,
    pub diary_added: u32,
    pub diary_updated: u32,
    /// Files whose between-stage prose the record took in.
    pub prose_files: u32,
    /// Handwritten texts taken into the record.
    pub documents_added: u32,
    pub documents_updated: u32,
    pub warnings: Vec<String>,
}

/// Everything an import counts.
pub open spec fn counted(r: Report) -> int {
    r.documents_added + r.documents_updated + r.versions_added + r.versions_updated + r.tasks_added + r.tasks_updated
        + r.tasks_dropped + r.versions_dropped + r.questions_withdrawn + r.decisions_added + r.questions_added
        + r.wishes_added + r.diary_added + r.diary_updated + r.prose_files
}

impl Report {
    /// Whether the import changed anything: any count above zero.
    pub fn changed(&self) -> (r: bool)
        requires
            counted(*self) <= u32::MAX,
        ensures
            r == (counted(*self) > 0),
    {
        self.documents_added + self.documents_updated + self.versions_added + self.versions_updated
            + self.tasks_added + self.tasks_updated + self.tasks_dropped + self.versions_dropped
            + self.questions_withdrawn + self.decisions_added + self.questions_added + self.wishes_added
            + self.diary_added + self.diary_updated + self.prose_files > 0
    }
}

/// One count goes up by what writing a row did: an addition, an update,
/// or nothing.
pub fn tally(change: Change, added: &mut u32, updated: &mut u32)
    requires
        change == Change::Added ==> *old(added) < u32::MAX,
        change == Change::Updated ==> *old(updated) < u32::MAX,
    ensures
        *final(added) == *old(added) + (if change == Change::Added {
            1int
        } else {
            0
        }),
        *final(updated) == *old(updated) + (if change == Change::Updated {
            1int
        } else {
            0
        }),
{
    match change {
        Change::Added => *added = *added + 1,
        Change::Updated => *updated = *updated + 1,
        Change::Unchanged => {},
    }
}

/// Whether a reading of a stage may reopen its tasks and strike the ones
/// it no longer lists: the changelog always speaks for its stages, the
/// plan only for a stage that has not shipped, and a plan the record wrote
/// never overrules the record.
pub fn may_reopen(from_changelog: bool, shipped: bool, plan_is_generated: bool) -> (r: bool)
    ensures
        r == ((from_changelog || !shipped) && !plan_is_generated),
{
    (from_changelog || !shipped) && !plan_is_generated
}

/// A decision of the hub as the record keeps it: dated at the start of its
/// day, its title and then its body.
pub open spec fn decision_event_of(date: Seq<char>, title: Seq<char>, body: Seq<char>) -> (Seq<char>, Seq<char>) {
    (date + "T00:00:00Z"@, if body.len() == 0 {
        title
    } else {
        title + "\n\n"@ + body
    })
}

pub fn decision_event(date: &str, title: &str, body: &str) -> (r: (String, String))
    ensures
        (r.0@, r.1@) == decision_event_of(date@, title@, body@),
{
    let mut at = chars_of(date);
    append_str(&mut at, "T00:00:00Z");
    let b = chars_of(body);
    let mut text = chars_of(title);
    if b.len() > 0 {
        append_str(&mut text, "\n\n");
        append(&mut text, &b);
    }
    (text_of(&at), text_of(&text))
}

/// Whether any prose run came from a file.
pub open spec fn from_file(prose: Seq<Prose>, file: Seq<char>) -> bool {
    exists|i: int| 0 <= i < prose.len() && #[trigger] prose[i].file@ == file
}

fn add_name(names: &mut Vec<String>, name: &String)
    requires
        rising(strings(old(names)@)),
    ensures
        rising(strings(final(names)@)),
        forall|x: Seq<char>| #[trigger] strings(final(names)@).contains(x) <==> (strings(old(names)@).contains(x) || x
            == name@),
{
    let ghost before = strings(names@);
    let mut k: usize = 0;
    while k < names.len() && compare_strings(&names[k], name) < 0
        invariant
            k <= names.len(),
            names@ == old(names)@,
            before == strings(names@),
            rising(before),
            forall|i: int| 0 <= i < k ==> text_order(#[trigger] before[i], name@) < 0,
        decreases names.len() - k,
    {
        assert(before[k as int] == names@[k as int]@);
        k = k + 1;
    }
    if k < names.len() {
        assert(before[k as int] == names@[k as int]@);
        let c = compare_strings(&names[k], name);
        proof {
            lemma_text_order(before[k as int], name@, name@);
        }
        if c == 0 {
            assert(strings(names@) =~= before);
            assert forall|x: Seq<char>| #[trigger] strings(names@).contains(x) <==> (before.contains(x) || x == name@) by {
                if x == name@ {
                    assert(before[k as int] == x);
                }
            }
            return;
        }
        assert(text_order(name@, before[k as int]) < 0);
    }
    names.insert(k, name.clone());
    let ghost after = strings(names@);
    assert(after =~= before.insert(k as int, name@));
    assert forall|i: int, j: int| 0 <= i < j < after.len() implies text_order(#[trigger] after[i], #[trigger] after[j]) < 0 by {
        if j < k {
        } else if i > k {
            assert(after[i] == before[i - 1] && after[j] == before[j - 1]);
        } else if i == k {
            assert(after[j] == before[j - 1]);
            if j - 1 > k {
                lemma_text_order(name@, before[k as int], before[j - 1]);
            }
        } else if j == k {
            assert(after[i] == before[i]);
        } else {
            assert(after[i] == before[i] && after[j] == before[j - 1]);
            lemma_text_order(before[i], name@, before[j - 1]);
            if j - 1 > k {
                lemma_text_order(name@, before[k as int], before[j - 1]);
            }
        }
    }
    assert forall|x: Seq<char>| #[trigger] after.contains(x) <==> (before.contains(x) || x == name@) by {
        if after.contains(x) {
            let i = choose|i: int| 0 <= i < after.len() && after[i] == x;
            if i < k {
                assert(before[i] == x);
            } else if i > k {
                assert(before[i - 1] == x);
            }
        }
        if before.contains(x) {
            let i = choose|i: int| 0 <= i < before.len() && before[i] == x;
            if i < k {
                assert(after[i] == x);
            } else {
                assert(after[i + 1] == x);
            }
        }
        if x == name@ {
            assert(after[k as int] == x);
        }
    }
}

/// The files the prose runs came from, each once, in the order of their
/// names.
pub fn prose_files(prose: &[Prose]) -> (r: Vec<String>)
    ensures
        rising(strings(r@)),
        forall|x: Seq<char>| #[trigger] strings(r@).contains(x) <==> from_file(prose@, x),
{
    let mut names: Vec<String> = Vec::new();
    let mut i: usize = 0;
    while i < prose.len()
        invariant
            i <= prose.len(),
            rising(strings(names@)),
            forall|x: Seq<char>| #[trigger] strings(names@).contains(x) <==> from_file(prose@.take(i as int), x),
        decreases prose.len() - i,
    {
        let ghost t = prose@.take(i + 1);
        add_name(&mut names, &prose[i].file);
        assert forall|x: Seq<char>| #[trigger] strings(names@).contains(x) <==> from_file(t, x) by {
            if from_file(t, x) {
                let j = choose|j: int| 0 <= j < t.len() && #[trigger] t[j].file@ == x;
                if j < i {
                    assert(prose@.take(i as int)[j] == t[j]);
                    assert(from_file(prose@.take(i as int), x));
                }
            }
            if from_file(prose@.take(i as int), x) {
                let j = choose|j: int| 0 <= j < i && #[trigger] prose@.take(i as int)[j].file@ == x;
                assert(t[j] == prose@.take(i as int)[j]);
            }
            if x == prose@[i as int].file@ {
                assert(t[i as int] == prose@[i as int]);
            }
        }
        i = i + 1;
    }
    assert(prose@.take(prose.len() as int) =~= prose@);
    names
}

/// The runs of one file, in the order they were read.
pub open spec fn runs_in(prose: Seq<Prose>, file: Seq<char>) -> Seq<Prose>
    decreases prose.len(),
{
    if prose.len() == 0 {
        Seq::empty()
    } else {
        let init = runs_in(prose.drop_last(), file);
        if prose.last().file@ == file {
            init.push(prose.last())
        } else {
            init
        }
    }
}

fn copy_of(p: &Prose) -> (r: Prose)
    ensures
        r == *p,
{
    Prose {
        file: p.file.clone(),
        position: p.position,
        heading: match &p.heading {
            Some(h) => Some(h.clone()),
            None => None,
        },
        body: p.body.clone(),
        gap_after: p.gap_after,
    }
}

pub fn runs_of(prose: &[Prose], file: &str) -> (r: Vec<Prose>)
    ensures
        r@ == runs_in(prose@, file@),
{
    let f = chars_of(file);
    let mut out: Vec<Prose> = Vec::new();
    let mut i: usize = 0;
    while i < prose.len()
        invariant
            i <= prose.len(),
            f@ == file@,
            out@ == runs_in(prose@.take(i as int), file@),
        decreases prose.len() - i,
    {
        assert(prose@.take(i + 1).drop_last() =~= prose@.take(i as int));
        assert(prose@.take(i + 1).last() == prose@[i as int]);
        if crate::text::same(&crate::text::chars_of_string(&prose[i].file), &f) {
            out.push(copy_of(&prose[i]));
        }
        i = i + 1;
    }
    assert(prose@.take(prose.len() as int) =~= prose@);
    out
}

} // verus!
