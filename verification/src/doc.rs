//! A project's handwritten texts, kept in the record rather than in files:
//! the vocabulary of kinds, the skeleton a new one starts from, and which
//! editor a text is opened in. Opening it is the program's work.
use vstd::prelude::*;
use crate::number::lemma_decimal_digits;
use crate::text::{
    append, append_str, chars_of, chars_of_string, decimal, push_decimal, same, strings, text_of, trim, trimmed, views, words,
    words_of,
};
use vstd::relations::injective_on;
use vstd::set_lib::{lemma_int_range, lemma_len_subset, lemma_map_size, set_int_range};

verus! {

/// The kinds a document can be.
pub open spec fn doc_kinds() -> Seq<Seq<char>> {
    seq!["vision"@, "decisions"@, "research"@, "rituals"@, "other"@]
}

/// The kinds a project has at most one of.
pub open spec fn singular_kinds() -> Seq<Seq<char>> {
    seq!["vision"@, "decisions"@, "rituals"@]
}

/// A kind outside the vocabulary.
#[derive(Debug, Clone)]
pub struct NotAKind {
    pub kind: String,
}

pub open spec fn not_a_kind_text(kind: Seq<char>) -> Seq<char> {
    "'"@ + kind + "' is not a kind of document; rigger knows vision, decisions, research, rituals, other"@
}

impl NotAKind {
    /// What the refusal says: the word, and the list of kinds there are.
    pub fn message(&self) -> (r: String)
        ensures
            r@ == not_a_kind_text(self.kind@),
    {
        let mut out: Vec<char> = Vec::new();
        append_str(&mut out, "'");
        append(&mut out, &crate::text::chars_of_string(&self.kind));
        append_str(&mut out, "' is not a kind of document; rigger knows vision, decisions, research, rituals, other");
        text_of(&out)
    }
}

/// Checks a kind against the vocabulary.
pub fn check_kind(kind: &str) -> (r: Result<(), NotAKind>)
    ensures
        doc_kinds().contains(kind@) ==> r is Ok,
        !doc_kinds().contains(kind@) ==> (r matches Err(e) && e.kind@ == kind@),
{
    let k = chars_of(kind);
    proof {
        reveal_strlit("vision");
        reveal_strlit("decisions");
        reveal_strlit("research");
        reveal_strlit("rituals");
        reveal_strlit("other");
    }
    if crate::text::same_str(&k, "vision") || crate::text::same_str(&k, "decisions") || crate::text::same_str(
        &k,
        "research",
    ) || crate::text::same_str(&k, "rituals") || crate::text::same_str(&k, "other") {
        assert(doc_kinds().contains(kind@)) by {
            if kind@ == "vision"@ {
                assert(doc_kinds()[0] == kind@);
            } else if kind@ == "decisions"@ {
                assert(doc_kinds()[1] == kind@);
            } else if kind@ == "research"@ {
                assert(doc_kinds()[2] == kind@);
            } else if kind@ == "rituals"@ {
                assert(doc_kinds()[3] == kind@);
            } else {
                assert(doc_kinds()[4] == kind@);
            }
        }
        Ok(())
    } else {
        Err(NotAKind { kind: kind.to_owned() })
    }
}

/// Whether a project has at most one document of this kind.
pub fn is_singular(kind: &str) -> (r: bool)
    ensures
        r == singular_kinds().contains(kind@),
{
    let k = chars_of(kind);
    let r = crate::text::same_str(&k, "vision") || crate::text::same_str(&k, "decisions") || crate::text::same_str(
        &k,
        "rituals",
    );
    proof {
        if r {
            if kind@ == "vision"@ {
                assert(singular_kinds()[0] == kind@);
            } else if kind@ == "decisions"@ {
                assert(singular_kinds()[1] == kind@);
            } else {
                assert(singular_kinds()[2] == kind@);
            }
        }
    }
    r
}

/// The headings a new document of a kind starts with.
pub open spec fn sections(kind: Seq<char>) -> Seq<Seq<char>> {
    if kind == "vision"@ {
        seq!["## Why"@, "## The idea"@, "## Boundaries"@, "## What success looks like"@]
    } else if kind == "research"@ {
        seq!["## The question"@, "## What was found"@, "## What was decided"@]
    } else if kind == "rituals"@ {
        seq!["## What this is"@, "## Rules of the project"@, "## Where things are"@]
    } else if kind == "decisions"@ {
        seq!["## How this journal is kept"@]
    } else {
        Seq::empty()
    }
}

pub open spec fn section_lines(ss: Seq<Seq<char>>) -> Seq<char>
    decreases ss.len(),
{
    if ss.len() == 0 {
        Seq::empty()
    } else {
        section_lines(ss.drop_last()) + "\n"@ + ss.last() + "\n\n\n"@
    }
}

/// The skeleton a new document starts from: its title, and the line's own
/// headings for its kind with room under each.
pub open spec fn template_text(kind: Seq<char>, title: Seq<char>) -> Seq<char> {
    "# "@ + title + "\n"@ + section_lines(sections(kind))
}

fn sections_of(kind: &Vec<char>) -> (r: Vec<&'static str>)
    ensures
        r@.map_values(|s: &'static str| s@) == sections(kind@),
{
    let r: Vec<&'static str> = if crate::text::same_str(kind, "vision") {
        vec!["## Why", "## The idea", "## Boundaries", "## What success looks like"]
    } else if crate::text::same_str(kind, "research") {
        vec!["## The question", "## What was found", "## What was decided"]
    } else if crate::text::same_str(kind, "rituals") {
        vec!["## What this is", "## Rules of the project", "## Where things are"]
    } else if crate::text::same_str(kind, "decisions") {
        vec!["## How this journal is kept"]
    } else {
        vec![]
    };
    assert(r@.map_values(|s: &'static str| s@) =~= sections(kind@));
    r
}

/// The skeleton a new document starts from, by kind.
pub fn template(kind: &str, title: &str) -> (r: String)
    ensures
        r@ == template_text(kind@, title@),
{
    let k = chars_of(kind);
    let ss = sections_of(&k);
    let ghost all = ss@.map_values(|s: &'static str| s@);
    let mut out: Vec<char> = Vec::new();
    append_str(&mut out, "# ");
    append_str(&mut out, title);
    append_str(&mut out, "\n");
    let ghost start = out@;
    for i in 0..ss.len()
        invariant
            all == ss@.map_values(|s: &'static str| s@),
            out@ == start + section_lines(all.take(i as int)),
    {
        assert(all.take(i + 1).drop_last() =~= all.take(i as int));
        assert(all[i as int] == ss@[i as int]@);
        append_str(&mut out, "\n");
        append_str(&mut out, ss[i]);
        append_str(&mut out, "\n\n\n");
    }
    assert(all.take(ss.len() as int) =~= all);
    text_of(&out)
}

/// What the editor is, and where the choice came from.
pub struct Editor {
    pub program: String,
    pub args: Vec<String>,
    /// For saying which editor was opened, when one has to be reported.
    pub source: &'static str,
}

/// The first of the variables that names something: the owner's own
/// variable, then `VISUAL`, then `EDITOR`, each read trimmed.
pub open spec fn named_editor(vars: Seq<Option<Seq<char>>>) -> Option<(int, Seq<char>)>
    decreases vars.len(),
{
    if vars.len() == 0 {
        None
    } else {
        match vars[0] {
            Some(v) => if trim(v).len() > 0 {
                Some((0, trim(v)))
            } else {
                match named_editor(vars.drop_first()) {
                    Some((i, t)) => Some((i + 1, t)),
                    None => None,
                }
            },
            None => match named_editor(vars.drop_first()) {
                Some((i, t)) => Some((i + 1, t)),
                None => None,
            },
        }
    }
}

/// Picks the editor: what the owner named, else the line's own editor when
/// it is installed, else what the system's variables say, else `fallback`.
/// `vars` are the owner's variable, `VISUAL` and `EDITOR`, in that order.
pub open spec fn chosen_editor(vars: Seq<Option<Seq<char>>>, line_editor: bool, fallback: Seq<char>) -> (Seq<char>, Seq<Seq<char>>, Seq<char>) {
    match named_editor(vars) {
        Some((i, t)) => {
            let ws = words(t);
            (if ws.len() > 0 {
                ws[0]
            } else {
                Seq::empty()
            }, if ws.len() > 0 {
                ws.drop_first()
            } else {
                Seq::empty()
            }, if i == 0 {
                "RIGGER_EDITOR"@
            } else {
                "the environment"@
            })
        },
        None => if line_editor {
            ("scheda"@, seq!["--wait"@], "scheda, which is installed"@)
        } else {
            (fallback, Seq::empty(), "the system default"@)
        },
    }
}

/// The editor to open a document in, from the owner's variable, `VISUAL`
/// and `EDITOR` as the environment holds them, whether the line's editor is
/// installed, and the system's plain default.
pub fn pick_editor(vars: &Vec<Option<String>>, line_editor: bool, fallback: &str) -> (r: Editor)
    ensures
        ({
            let c = chosen_editor(vars@.map_values(|o: Option<String>| crate::text::opt_chars(o)), line_editor, fallback@);
            r.program@ == c.0 && strings(r.args@) == c.1 && r.source@ == c.2
        }),
{
    let ghost vs = vars@.map_values(|o: Option<String>| crate::text::opt_chars(o));
    let mut i: usize = 0;
    assert(vs.skip(0) =~= vs);
    while i < vars.len()
        invariant
            i <= vars.len(),
            vs == vars@.map_values(|o: Option<String>| crate::text::opt_chars(o)),
            named_editor(vs) == match named_editor(vs.skip(i as int)) {
                Some((k, t)) => Some((k + i, t)),
                None => None,
            },
        decreases vars.len() - i,
    {
        assert(vs.skip(i as int)[0] == crate::text::opt_chars(vars@[i as int]));
        assert(vs.skip(i as int).drop_first() =~= vs.skip(i + 1));
        match &vars[i] {
            Some(v) => {
                let t = trimmed(&crate::text::chars_of_string(v));
                if t.len() > 0 {
                    let ws = words_of(&t);
                    let program = if ws.len() > 0 {
                        text_of(&ws[0])
                    } else {
                        String::new()
                    };
                    let mut args: Vec<String> = Vec::new();
                    if ws.len() > 0 {
                        let ghost all = views(ws@);
                        assert(all[0] == ws@[0]@);
                        for j in 1..ws.len()
                            invariant
                                all == views(ws@),
                                ws.len() > 0,
                                strings(args@) == all.drop_first().take(j - 1),
                        {
                            let ghost before = strings(args@);
                            args.push(text_of(&ws[j]));
                            assert(strings(args@) =~= before.push(ws@[j as int]@));
                            assert(all.drop_first().take(j as int) =~= all.drop_first().take(j - 1).push(all[j as int]));
                        }
                        assert(all.drop_first().take(ws.len() - 1) =~= all.drop_first());
                    }
                    let source: &'static str = if i == 0 {
                        "RIGGER_EDITOR"
                    } else {
                        "the environment"
                    };
                    return Editor { program, args, source };
                }
            },
            None => {},
        }
        i = i + 1;
    }
    if line_editor {
        let mut args: Vec<String> = Vec::new();
        args.push("--wait".to_owned());
        proof {
            assert(strings(args@) =~= seq!["--wait"@]);
        }
        Editor { program: "scheda".to_owned(), args, source: "scheda, which is installed" }
    } else {
        let args: Vec<String> = Vec::new();
        assert(strings(args@) =~= Seq::<Seq<char>>::empty());
        Editor { program: fallback.to_owned(), args, source: "the system default" }
    }
}

/// A document as a listing shows it: its address, kind, how long ago it
/// changed (`None` when the moment does not read), and its title.
pub struct Listed {
    pub slug: String,
    pub kind: String,
    pub days: Option<i64>,
    pub title: String,
}

pub open spec fn when_text(days: Option<i64>) -> Seq<char> {
    match days {
        Some(d) => crate::context::days_ago_text(d as int),
        None => "unknown"@,
    }
}

/// The address column is as wide as the longest address, and never
/// narrower than twelve, so one long slug pushes the rest along rather
/// than bending the table.
pub open spec fn slug_width(docs: Seq<Listed>) -> nat
    decreases docs.len(),
{
    if docs.len() == 0 {
        12
    } else {
        let a = slug_width(docs.drop_last());
        let b = docs.last().slug@.len();
        if a >= b {
            a
        } else {
            b
        }
    }
}

pub open spec fn listed_line(d: Listed, w: nat) -> Seq<char> {
    "  "@ + crate::calendar::pad(d.slug@, w) + " "@ + crate::calendar::pad(d.kind@, 10) + " "@ + crate::calendar::pad(
        when_text(d.days),
        12,
    ) + " "@ + trim(crate::context::first_filled(crate::text::lines(d.title@)))
}

/// The documents of a project, one line each; with none, how to write the
/// first.
pub open spec fn listing_text(project: Seq<char>, docs: Seq<Listed>) -> Seq<Seq<char>> {
    if docs.len() == 0 {
        seq![
            project + " has no documents yet."@,
            "Write one with: rigger doc add "@ + project + " \"Vision\" --kind vision"@,
        ]
    } else {
        seq![crate::context::plural_text(docs.len(), "document"@, "documents"@) + ":"@] + docs.map_values(
            |d: Listed| listed_line(d, slug_width(docs)),
        )
    }
}

fn push_text(lines: &mut Vec<String>, line: &Vec<char>)
    ensures
        strings(final(lines)@) == strings(old(lines)@).push(line@),
{
    let ghost before = strings(lines@);
    lines.push(text_of(line));
    assert(strings(lines@) =~= before.push(line@));
}

pub fn listing(project: &str, docs: &[Listed]) -> (r: Vec<String>)
    ensures
        strings(r@) == listing_text(project@, docs@),
{
    let mut lines: Vec<String> = Vec::new();
    if docs.len() == 0 {
        let mut a = chars_of(project);
        append_str(&mut a, " has no documents yet.");
        push_text(&mut lines, &a);
        let mut b = chars_of("Write one with: rigger doc add ");
        append_str(&mut b, project);
        append_str(&mut b, " \"Vision\" --kind vision");
        push_text(&mut lines, &b);
        return lines;
    }
    let mut w: usize = 12;
    let mut i: usize = 0;
    while i < docs.len()
        invariant
            i <= docs.len(),
            w == slug_width(docs@.take(i as int)),
        decreases docs.len() - i,
    {
        assert(docs@.take(i + 1).drop_last() =~= docs@.take(i as int));
        assert(docs@.take(i + 1).last() == docs@[i as int]);
        let n = crate::text::chars_of_string(&docs[i].slug).len();
        if n > w {
            w = n;
        }
        i = i + 1;
    }
    assert(docs@.take(docs.len() as int) =~= docs@);
    let mut head: Vec<char> = Vec::new();
    crate::context::push_plural(&mut head, docs.len() as u64, "document", "documents");
    append_str(&mut head, ":");
    push_text(&mut lines, &head);
    let ghost top = strings(lines@);
    let mut i: usize = 0;
    while i < docs.len()
        invariant
            i <= docs.len(),
            w == slug_width(docs@),
            strings(lines@) == top + docs@.take(i as int).map_values(|d: Listed| listed_line(d, slug_width(docs@))),
        decreases docs.len() - i,
    {
        let d = &docs[i];
        let mut line = chars_of("  ");
        crate::calendar::push_pad(&mut line, &crate::text::chars_of_string(&d.slug), w);
        append_str(&mut line, " ");
        crate::calendar::push_pad(&mut line, &crate::text::chars_of_string(&d.kind), 10);
        append_str(&mut line, " ");
        let mut when: Vec<char> = Vec::new();
        match d.days {
            Some(n) => crate::context::push_days_ago(&mut when, n),
            None => append_str(&mut when, "unknown"),
        }
        crate::calendar::push_pad(&mut line, &when, 12);
        append_str(&mut line, " ");
        append(&mut line, &crate::owner::first_line_of(&crate::text::chars_of_string(&d.title)));
        assert(line@ =~= listed_line(*d, slug_width(docs@)));
        push_text(&mut lines, &line);
        assert(docs@.take(i + 1) =~= docs@.take(i as int).push(*d));
        assert(docs@.take(i + 1).map_values(|d: Listed| listed_line(d, slug_width(docs@))) =~= docs@.take(
            i as int,
        ).map_values(|d: Listed| listed_line(d, slug_width(docs@))).push(listed_line(*d, slug_width(docs@))));
        i = i + 1;
    }
    assert(docs@.take(docs.len() as int) =~= docs@);
    lines
}


/// The address `kind-n`: a kind with a number after it.
pub open spec fn numbered(kind: Seq<char>, n: nat) -> Seq<char> {
    kind + "-"@ + decimal(n)
}

/// Two numbers give two addresses.
proof fn lemma_numbered_differ(kind: Seq<char>, n: nat, m: nat)
    requires
        n != m,
    ensures
        numbered(kind, n) != numbered(kind, m),
{
    lemma_decimal_digits(n);
    lemma_decimal_digits(m);
    reveal_strlit("-");
    if numbered(kind, n) == numbered(kind, m) {
        let k = kind.len() + 1;
        assert(numbered(kind, n).subrange(k as int, numbered(kind, n).len() as int) =~= decimal(n));
        assert(numbered(kind, m).subrange(k as int, numbered(kind, m).len() as int) =~= decimal(m));
    }
}

/// A list of addresses cannot hold every one of `kind-2` to
/// `kind-(len + 2)`: that is one more address than it has entries.
proof fn lemma_a_number_is_free(kind: Seq<char>, taken: Seq<Seq<char>>)
    ensures
        exists|n: nat| 2 <= n <= taken.len() + 2 && !taken.contains(#[trigger] numbered(kind, n)),
{
    if forall|n: nat| 2 <= n <= taken.len() + 2 ==> taken.contains(#[trigger] numbered(kind, n)) {
        let lo: int = 2;
        let hi: int = taken.len() as int + 3;
        let range = set_int_range(lo, hi);
        let f = |n: int| numbered(kind, n as nat);
        lemma_int_range(lo, hi);
        assert(injective_on(f, range)) by {
            assert forall|a: int, b: int| range.contains(a) && range.contains(b) && #[trigger] f(a) == #[trigger] f(b)
                implies a == b by {
                if a != b {
                    lemma_numbered_differ(kind, a as nat, b as nat);
                }
            }
        }
        lemma_map_size(range, range.map(f), f);
        assert(range.map(f).subset_of(taken.to_set())) by {
            assert forall|s: Seq<char>| range.map(f).contains(s) implies taken.to_set().contains(s) by {
                let n = choose|n: int| range.contains(n) && f(n) == s;
                assert(taken.contains(numbered(kind, n as nat)));
            }
        }
        taken.lemma_cardinality_of_set();
        lemma_len_subset(range.map(f), taken.to_set());
    }
}

/// Whether any of a list of strings is this text.
fn listed(taken: &Vec<String>, s: &Vec<char>) -> (r: bool)
    ensures
        r == strings(taken@).contains(s@),
{
    for i in 0..taken.len()
        invariant
            forall|j: int| 0 <= j < i ==> strings(taken@)[j] != s@,
    {
        if same(&chars_of_string(&taken[i]), s) {
            assert(strings(taken@)[i as int] == s@);
            return true;
        }
    }
    false
}

/// An address for a document whose title gives none, among the addresses
/// the project's documents already have: the kind itself while it is free,
/// else `kind-n` for the first free number from 2 on.
pub fn next_slug(kind: &str, taken: &Vec<String>) -> (r: String)
    requires
        taken.len() + 3 <= u64::MAX,
    ensures
        !strings(taken@).contains(r@),
        !strings(taken@).contains(kind@) ==> r@ == kind@,
        strings(taken@).contains(kind@) ==> exists|n: nat|
            #![trigger numbered(kind@, n)]
            2 <= n && r@ == numbered(kind@, n) && forall|m: nat|
                2 <= m < n ==> strings(taken@).contains(#[trigger] numbered(kind@, m)),
{
    let k = chars_of(kind);
    if !listed(taken, &k) {
        return kind.to_string();
    }
    proof {
        lemma_a_number_is_free(kind@, strings(taken@));
    }
    let last: u64 = taken.len() as u64 + 2;
    let mut n: u64 = 2;
    while n <= last
        invariant
            2 <= n <= last + 1,
            last == taken.len() + 2,
            k@ == kind@,
            strings(taken@).contains(kind@),
            forall|m: nat| 2 <= m < n ==> strings(taken@).contains(#[trigger] numbered(kind@, m)),
            exists|f: nat| n <= f <= last && !strings(taken@).contains(#[trigger] numbered(kind@, f)),
        decreases last + 1 - n,
    {
        let mut candidate = k.clone();
        candidate.push('-');
        push_decimal(&mut candidate, n);
        proof {
            reveal_strlit("-");
        }
        assert(candidate@ =~= numbered(kind@, n as nat));
        if !listed(taken, &candidate) {
            return text_of(&candidate);
        }
        n += 1;
    }
    // The invariant leaves a free number at or below `last`, so the loop
    // has returned before it runs out.
    proof {
        assert(false);
    }
    kind.to_string()
}

} // verus!
