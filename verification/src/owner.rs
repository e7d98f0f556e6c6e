//! The two screens the owner reads: the questions waiting for an answer,
//! gathered across projects and grouped where several ask the same thing,
//! and the digest of what moved, in five lines at most.
use vstd::prelude::*;
use crate::context::{first_filled, plural_text, push_plural};
use crate::db::{DigestFacts, Waiting};
use crate::order::{lemma_sort_map, sorted_by, stable_sort, text_order};
use crate::text::{
    alphanumeric, append, append_str, chars_of, chars_of_string, drop_lead, drop_prefixes, drop_tail, dropped_lead,
    dropped_prefixes, dropped_tail, find, is_space, joined, lines, lines_of, starts_with, strings, text_of, trim,
    trimmed, views, words, Class,
};

verus! {

/// A group of questions that appear to ask the same thing.
#[derive(Debug)]
pub struct Shared {
    pub subject: String,
    pub projects: Vec<String>,
}

/// The first line of a question with the glyphs and boxes that mark it as
/// waiting taken off.
pub open spec fn opening(body: Seq<char>) -> Seq<char> {
    let first = trim(first_filled(lines(body)));
    trim(drop_prefixes(drop_prefixes(drop_lead(first, Class::Glyph), "[ ]"@), "[x]"@))
}

/// `**Subject**` or `**Subject:**`: what is between the markers, when it
/// is not empty.
pub open spec fn bold_heading(first: Seq<char>) -> Option<Seq<char>> {
    if starts_with(first, "**"@) {
        let rest = first.skip(2);
        match find(rest, "**"@) {
            Some(end) => {
                let h = trim(drop_tail(trim(rest.take(end)), Class::HeadingEnd));
                if h.len() > 0 {
                    Some(h)
                } else {
                    None
                }
            },
            None => None,
        }
    } else {
        None
    }
}

/// Whether a sentence can end at `i`: a question or exclamation mark, a
/// colon or a dash, or a dot with white space or nothing after it.
pub open spec fn stops_at(t: Seq<char>, i: int) -> bool {
    let c = t[i];
    c == '?' || c == '!' || c == ':' || c == '—' || (c == '.' && (i + 1 == t.len() || is_space(t[i + 1])))
}

/// The text up to a stop: a question or exclamation mark is kept, the
/// other stops are not.
pub open spec fn cut_at(t: Seq<char>, i: int) -> Seq<char> {
    let keep = if t[i] == '?' || t[i] == '!' {
        i + 1
    } else {
        i
    };
    trim(drop_tail(trim(t.take(keep)), Class::CutEnd))
}

/// The first sentence from `i` on that leaves something when cut.
pub open spec fn sentence_from(t: Seq<char>, i: int) -> Option<Seq<char>>
    decreases t.len() - i,
{
    if i < 0 || i >= t.len() {
        None
    } else if stops_at(t, i) && cut_at(t, i).len() > 0 {
        Some(cut_at(t, i))
    } else {
        sentence_from(t, i + 1)
    }
}

/// The heading of a question: its bold opening, else its first sentence,
/// else its first line.
pub open spec fn subject_of(body: Seq<char>) -> Seq<char> {
    let first = opening(body);
    match bold_heading(first) {
        Some(h) => h,
        None => match sentence_from(first, 0) {
            Some(c) => c,
            None => trim(drop_tail(first, Class::SubjectEnd)),
        },
    }
}

pub fn first_line_of(body: &Vec<char>) -> (r: Vec<char>)
    ensures
        r@ == trim(first_filled(lines(body@))),
{
    let ls = lines_of(body);
    let ghost all = views(ls@);
    let mut k: usize = 0;
    assert(all.skip(0) =~= all);
    while k < ls.len()
        invariant
            k <= ls.len(),
            all == views(ls@),
            all == lines(body@),
            first_filled(all.skip(k as int)) == first_filled(all),
        decreases ls.len() - k,
    {
        assert(all.skip(k as int)[0] == ls@[k as int]@);
        let t = trimmed(&ls[k]);
        if t.len() > 0 {
            assert(first_filled(all.skip(k as int)) == ls@[k as int]@);
            return t;
        }
        assert(all.skip(k as int).drop_first() =~= all.skip(k + 1));
        k = k + 1;
    }
    proof {
        assert(trim(Seq::<char>::empty()) =~= Seq::<char>::empty());
    }
    Vec::new()
}

fn cut_of(t: &Vec<char>, i: usize) -> (r: Vec<char>)
    requires
        i < t.len(),
    ensures
        r@ == cut_at(t@, i as int),
{
    let keep = if t[i] == '?' || t[i] == '!' {
        i + 1
    } else {
        i
    };
    let a = crate::text::slice(t, 0, keep);
    let b = trimmed(&a);
    let c = dropped_tail(&b, Class::CutEnd);
    trimmed(&c)
}

fn subject_chars(body: &Vec<char>) -> (r: Vec<char>)
    ensures
        r@ == subject_of(body@),
{
    let line = first_line_of(body);
    let a = dropped_lead(&line, Class::Glyph);
    proof {
        reveal_strlit("[ ]");
        reveal_strlit("[x]");
    }
    let b = dropped_prefixes(&a, "[ ]");
    let c = dropped_prefixes(&b, "[x]");
    let first = trimmed(&c);
    proof {
        reveal_strlit("**");
    }
    if crate::text::starts_str(&first, "**") {
        let rest = crate::text::slice(&first, 2, first.len());
        assert(rest@ =~= first@.skip(2));
        match crate::text::find_str(&rest, "**") {
            Some(end) => {
                let h0 = crate::text::slice(&rest, 0, end);
                let h1 = trimmed(&h0);
                let h2 = dropped_tail(&h1, Class::HeadingEnd);
                let h = trimmed(&h2);
                if h.len() > 0 {
                    return h;
                }
            },
            None => {},
        }
    }
    assert(bold_heading(first@) is None);
    assert(first@ == opening(body@));
    let n = first.len();
    let mut i: usize = 0;
    while i < n
        invariant
            n == first.len(),
            i <= n,
            first@ == opening(body@),
            bold_heading(first@) is None,
            sentence_from(first@, i as int) == sentence_from(first@, 0),
        decreases n - i,
    {
        let c = first[i];
        let stop = c == '?' || c == '!' || c == ':' || c == '—' || (c == '.' && (i + 1 == n || crate::text::space(
            first[i + 1],
        )));
        if stop {
            let cut = cut_of(&first, i);
            if cut.len() > 0 {
                return cut;
            }
        }
        i = i + 1;
    }
    let d = dropped_tail(&first, Class::SubjectEnd);
    trimmed(&d)
}

/// The heading of a question, which is what identifies it in a list: its
/// bold opening, else its first sentence, else its first line.
pub fn subject(body: &str) -> (r: String)
    ensures
        r@ == subject_of(body@),
{
    let s = chars_of(body);
    let out = subject_chars(&s);
    text_of(&out)
}

/// What `str::to_lowercase` makes of a text.
pub uninterp spec fn lowercase_text(s: Seq<char>) -> Seq<char>;

/// `str::to_lowercase`.
#[verifier::external_body]
fn lowercase_of(s: &Vec<char>) -> (r: Vec<char>)
    ensures
        r@ == lowercase_text(s@),
{
    let t: String = s.iter().collect();
    t.to_lowercase().chars().collect()
}

/// The letters, digits and white space of a text.
pub open spec fn word_chars(s: Seq<char>) -> Seq<char>
    decreases s.len(),
{
    if s.len() == 0 {
        s
    } else if alphanumeric(s.last()) || is_space(s.last()) {
        word_chars(s.drop_last()).push(s.last())
    } else {
        word_chars(s.drop_last())
    }
}

/// A subject reduced to what two spellings of one question share: lower
/// case, the words only, one space between them.
pub open spec fn subject_key(s: Seq<char>) -> Seq<char> {
    joined(words(word_chars(lowercase_text(s))), " "@)
}

fn key_of(s: &Vec<char>) -> (r: Vec<char>)
    ensures
        r@ == subject_key(s@),
{
    let low = lowercase_of(s);
    let mut kept: Vec<char> = Vec::new();
    for i in 0..low.len()
        invariant
            kept@ == word_chars(low@.take(i as int)),
    {
        assert(low@.take(i + 1).drop_last() =~= low@.take(i as int));
        let c = low[i];
        if crate::text::is_alphanumeric(c) || crate::text::space(c) {
            kept.push(c);
        }
    }
    assert(low@.take(low.len() as int) =~= low@);
    let ws = crate::text::words_of(&kept);
    crate::text::join_with(&ws, " ")
}

/// Groups so far: each with its key, the subject as first written, and the
/// projects asking it.
pub type Group = (Seq<char>, Seq<char>, Seq<Seq<char>>);

/// Where a key's group is, if there is one.
pub open spec fn group_at(gs: Seq<Group>, key: Seq<char>) -> Option<int> {
    crate::card::first_at(gs.map_values(|g: Group| g.0), key)
}

/// One question sorted into the groups: into the group of its key, once
/// per project, or into a new group; a question with no words is left out.
pub open spec fn group_step(gs: Seq<Group>, w: Waiting) -> Seq<Group> {
    let shown = subject_of(w.body@);
    let key = subject_key(shown);
    if key.len() == 0 {
        gs
    } else {
        match group_at(gs, key) {
            Some(i) => if 0 <= i < gs.len() && !gs[i].2.contains(w.project@) {
                gs.update(i, (gs[i].0, gs[i].1, gs[i].2.push(w.project@)))
            } else {
                gs
            },
            None => gs.push((key, shown, seq![w.project@])),
        }
    }
}

pub open spec fn groups(ws: Seq<Waiting>) -> Seq<Group>
    decreases ws.len(),
{
    if ws.len() == 0 {
        Seq::empty()
    } else {
        group_step(groups(ws.drop_last()), ws.last())
    }
}

/// The groups more than one project is in, as subject and projects.
pub open spec fn shared_groups(gs: Seq<Group>) -> Seq<(Seq<char>, Seq<Seq<char>>)>
    decreases gs.len(),
{
    if gs.len() == 0 {
        Seq::empty()
    } else if gs.last().2.len() > 1 {
        shared_groups(gs.drop_last()).push((gs.last().1, gs.last().2))
    } else {
        shared_groups(gs.drop_last())
    }
}

/// Most shared first, then by subject.
pub open spec fn shared_before(a: (Seq<char>, Seq<Seq<char>>), b: (Seq<char>, Seq<Seq<char>>)) -> bool {
    a.1.len() > b.1.len() || (a.1.len() == b.1.len() && text_order(a.0, b.0) < 0)
}

pub open spec fn shared_order() -> spec_fn((Seq<char>, Seq<Seq<char>>), (Seq<char>, Seq<Seq<char>>)) -> bool {
    |a: (Seq<char>, Seq<Seq<char>>), b: (Seq<char>, Seq<Seq<char>>)| shared_before(a, b)
}

pub open spec fn shared_view(s: Shared) -> (Seq<char>, Seq<Seq<char>>) {
    (s.subject@, strings(s.projects@))
}

pub open spec fn shared_struct_order() -> spec_fn(Shared, Shared) -> bool {
    |a: Shared, b: Shared| shared_before(shared_view(a), shared_view(b))
}

fn shared_comes_before(a: &Shared, b: &Shared) -> (r: bool)
    ensures
        r == shared_before(shared_view(*a), shared_view(*b)),
{
    if a.projects.len() != b.projects.len() {
        return a.projects.len() > b.projects.len();
    }
    crate::order::compare_strings(&a.subject, &b.subject) < 0
}

fn holds(v: &Vec<String>, x: &String) -> (r: bool)
    ensures
        r == strings(v@).contains(x@),
{
    for i in 0..v.len()
        invariant
            forall|j: int| 0 <= j < i ==> strings(v@)[j] != x@,
    {
        let a = chars_of_string(&v[i]);
        let b = chars_of_string(x);
        if crate::text::same(&a, &b) {
            assert(strings(v@)[i as int] == x@);
            return true;
        }
    }
    false
}

fn copy_strings(v: &Vec<String>) -> (r: Vec<String>)
    ensures
        strings(r@) == strings(v@),
{
    let mut out: Vec<String> = Vec::new();
    for i in 0..v.len()
        invariant
            strings(out@) == strings(v@).take(i as int),
    {
        let ghost before = strings(out@);
        out.push(v[i].clone());
        assert(strings(out@) =~= before.push(v@[i as int]@));
        assert(strings(v@).take(i + 1) =~= strings(v@).take(i as int).push(v@[i as int]@));
    }
    assert(strings(v@).take(v.len() as int) =~= strings(v@));
    out
}

fn key_index(keys: &Vec<Vec<char>>, key: &Vec<char>) -> (r: Option<usize>)
    ensures
        r matches Some(i) ==> crate::card::first_at(views(keys@), key@) == Some(i as int) && i < keys.len(),
        r is None ==> crate::card::first_at(views(keys@), key@) is None,
{
    proof {
        crate::card::lemma_first_at(views(keys@), key@);
    }
    for i in 0..keys.len()
        invariant
            forall|j: int| 0 <= j < i ==> views(keys@)[j] != key@,
            crate::card::first_at(views(keys@), key@) matches Some(k) ==> 0 <= k < keys.len() && views(keys@)[k]
                == key@ && forall|j: int| 0 <= j < k ==> views(keys@)[j] != key@,
            crate::card::first_at(views(keys@), key@) is None ==> forall|j: int|
                0 <= j < keys.len() ==> views(keys@)[j] != key@,
    {
        if crate::text::same(&keys[i], key) {
            assert(views(keys@)[i as int] == key@);
            return Some(i);
        }
    }
    None
}

pub open spec fn table(keys: Seq<Vec<char>>, shown: Seq<Vec<char>>, projects: Seq<Vec<String>>) -> Seq<Group> {
    Seq::new(keys.len(), |j: int| (keys[j]@, shown[j]@, strings(projects[j]@)))
}

/// Questions that several projects are asking in the same words, most
/// shared first: grouped by subject, spelt alike once case and punctuation
/// are set aside; a project asking twice is still one project.
pub fn shared_subjects(waiting: &[Waiting]) -> (r: Vec<Shared>)
    ensures
        r@.map_values(|s: Shared| shared_view(s)) == stable_sort(shared_groups(groups(waiting@)), shared_order()),
{
    let mut keys: Vec<Vec<char>> = Vec::new();
    let mut shown: Vec<Vec<char>> = Vec::new();
    let mut projects: Vec<Vec<String>> = Vec::new();
    for i in 0..waiting.len()
        invariant
            keys.len() == shown.len(),
            keys.len() == projects.len(),
            groups(waiting@.take(i as int)) == table(keys@, shown@, projects@),
    {
        assert(waiting@.take(i + 1).drop_last() =~= waiting@.take(i as int));
        let ghost gs = table(keys@, shown@, projects@);
        assert(gs.map_values(|g: Group| g.0) =~= views(keys@));
        let w = &waiting[i];
        let body = chars_of_string(&w.body);
        let s = subject_chars(&body);
        let key = key_of(&s);
        if key.len() > 0 {
            match key_index(&keys, &key) {
                Some(at) => {
                    if !holds(&projects[at], &w.project) {
                        let mut ps = projects.remove(at);
                        let ghost before = strings(ps@);
                        ps.push(w.project.clone());
                        assert(strings(ps@) =~= before.push(w.project@));
                        projects.insert(at, ps);
                        assert(table(keys@, shown@, projects@) =~= gs.update(
                            at as int,
                            (gs[at as int].0, gs[at as int].1, gs[at as int].2.push(w.project@)),
                        ));
                    }
                },
                None => {
                    keys.push(key);
                    shown.push(s);
                    let mut ps: Vec<String> = Vec::new();
                    ps.push(w.project.clone());
                    assert(strings(ps@) =~= seq![w.project@]);
                    projects.push(ps);
                    assert(table(keys@, shown@, projects@) =~= gs.push((subject_key(subject_of(w.body@)), subject_of(w.body@), seq![w.project@])));
                },
            }
        }
    }
    assert(waiting@.take(waiting.len() as int) =~= waiting@);
    let ghost all = table(keys@, shown@, projects@);
    let mut out: Vec<Shared> = Vec::new();
    for j in 0..keys.len()
        invariant
            keys.len() == shown.len(),
            keys.len() == projects.len(),
            all == table(keys@, shown@, projects@),
            out@.map_values(|s: Shared| shared_view(s)) == shared_groups(all.take(j as int)),
    {
        assert(all.take(j + 1).drop_last() =~= all.take(j as int));
        if projects[j].len() > 1 {
            let ghost before = out@.map_values(|s: Shared| shared_view(s));
            out.push(Shared { subject: text_of(&shown[j]), projects: copy_strings(&projects[j]) });
            assert(out@.map_values(|s: Shared| shared_view(s)) =~= before.push((all[j as int].1, all[j as int].2)));
        }
    }
    assert(all.take(keys.len() as int) =~= all);
    proof {
        assert forall|a: &Shared, b: &Shared, r: bool| call_ensures(shared_comes_before, (a, b), r) implies r == (shared_struct_order())(*a, *b) by {}
        lemma_sort_map(out@, |s: Shared| shared_view(s), shared_struct_order(), shared_order());
    }
    sorted_by(out, &shared_comes_before, Ghost(shared_struct_order()))
}

/// The name of a stage without the aside a hub carries after it: cut
/// before ` *(` or ` (`, and trailing marks dropped; the whole heading,
/// trimmed, when nothing is left.
pub open spec fn stage_name_of(stage: Seq<char>) -> Seq<char> {
    let cut = match find(stage, " *("@) {
        Some(i) => i,
        None => match find(stage, " ("@) {
            Some(i) => i,
            None => stage.len() as int,
        },
    };
    let name = trim(drop_tail(trim(stage.take(cut)), Class::StageEnd));
    if name.len() == 0 {
        trim(stage)
    } else {
        name
    }
}

fn stage_name_chars(s: &Vec<char>) -> (r: Vec<char>)
    ensures
        r@ == stage_name_of(s@),
{
    let cut = match crate::text::find_str(s, " *(") {
        Some(i) => i,
        None => match crate::text::find_str(s, " (") {
            Some(i) => i,
            None => s.len(),
        },
    };
    proof {
        reveal(find);
    }
    let a = crate::text::slice(s, 0, cut);
    let b = trimmed(&a);
    let c = dropped_tail(&b, Class::StageEnd);
    let name = trimmed(&c);
    if name.len() == 0 {
        trimmed(s)
    } else {
        name
    }
}

/// The name of a stage, without the asides a hub carries.
pub fn stage_name(stage: &str) -> (r: String)
    ensures
        r@ == stage_name_of(stage@),
{
    let s = chars_of(stage);
    let out = stage_name_chars(&s);
    text_of(&out)
}

/// What shipped: the one release by name, or the first and the last and
/// how many.
pub open spec fn shipped_lines(shipped: Seq<Seq<char>>) -> Seq<Seq<char>> {
    if shipped.len() == 0 {
        Seq::empty()
    } else if shipped.len() == 1 {
        seq!["shipped "@ + shipped[0]]
    } else {
        seq![
            "shipped "@ + shipped[0] + " — "@ + shipped.last() + " ("@ + crate::text::decimal(shipped.len()) + " releases)"@,
        ]
    }
}

/// What was recorded: decisions, findings and changes, each with its noun.
pub open spec fn recorded_parts(f: DigestFacts) -> Seq<Seq<char>> {
    (if f.decisions > 0 {
        seq![plural_text(f.decisions as nat, "decision"@, "decisions"@)]
    } else {
        Seq::empty()
    }) + (if f.findings > 0 {
        seq![plural_text(f.findings as nat, "finding"@, "findings"@)]
    } else {
        Seq::empty()
    }) + (if f.changes > 0 {
        seq![plural_text(f.changes as nat, "change"@, "changes"@)]
    } else {
        Seq::empty()
    })
}

/// The lines other than the silence: the signal, what shipped, what was
/// recorded, what waits, what is next.
pub open spec fn report_lines(f: DigestFacts, next: Option<Seq<char>>, signal: Option<Seq<char>>) -> Seq<Seq<char>> {
    let parts = recorded_parts(f);
    (match signal {
        Some(s) => seq![s],
        None => Seq::empty(),
    }) + shipped_lines(strings(f.shipped@)) + (if parts.len() > 0 {
        seq!["recorded "@ + joined(parts, ", "@)]
    } else {
        Seq::empty()
    }) + (if f.waiting > 0 {
        seq!["waiting on you: "@ + plural_text(f.waiting as nat, "question"@, "questions"@)]
    } else {
        Seq::empty()
    }) + match next {
        Some(st) => seq!["next: "@ + stage_name_of(st)],
        None => Seq::empty(),
    }
}

pub open spec fn silence_line(days: int) -> Seq<char> {
    if days == 0 {
        "nothing recorded, though something happened today"@
    } else if days == 1 {
        "nothing this week; last touched yesterday"@
    } else {
        "nothing this week; last touched "@ + crate::text::signed_decimal(days) + " days ago"@
    }
}

/// The digest of one project: the report, or when there is nothing to
/// report, how long it has been quiet.
pub open spec fn digest(f: DigestFacts, next: Option<Seq<char>>, quiet: Option<i64>, signal: Option<Seq<char>>) -> Seq<Seq<char>> {
    let lines = report_lines(f, next, signal);
    if lines.len() == 0 {
        match quiet {
            Some(d) => seq![silence_line(d as int)],
            None => lines,
        }
    } else {
        lines
    }
}

fn push_line(lines: &mut Vec<String>, line: &Vec<char>)
    ensures
        strings(final(lines)@) == strings(old(lines)@).push(line@),
{
    let ghost before = strings(lines@);
    lines.push(text_of(line));
    assert(strings(lines@) =~= before.push(line@));
}

fn opt_view(o: Option<&str>) -> (r: Option<Vec<char>>)
    ensures
        match o {
            Some(s) => r matches Some(v) && v@ == s@,
            None => r is None,
        },
{
    match o {
        Some(s) => Some(chars_of(s)),
        None => None,
    }
}

fn shipped_of(facts: &DigestFacts, lines: &mut Vec<String>)
    ensures
        strings(final(lines)@) == strings(old(lines)@) + shipped_lines(strings(facts.shipped@)),
{
    let n = facts.shipped.len();
    let ghost a = strings(lines@);
    if n == 1 {
        let mut l = chars_of("shipped ");
        append(&mut l, &chars_of_string(&facts.shipped[0]));
        push_line(lines, &l);
    } else if n > 1 {
        let mut l = chars_of("shipped ");
        append(&mut l, &chars_of_string(&facts.shipped[0]));
        append_str(&mut l, " — ");
        append(&mut l, &chars_of_string(&facts.shipped[n - 1]));
        append_str(&mut l, " (");
        crate::text::push_decimal(&mut l, n as u64);
        append_str(&mut l, " releases)");
        push_line(lines, &l);
    }
    assert(strings(lines@) =~= a + shipped_lines(strings(facts.shipped@)));
}

fn recorded_of(facts: &DigestFacts, lines: &mut Vec<String>)
    ensures
        strings(final(lines)@) == strings(old(lines)@) + (if recorded_parts(*facts).len() > 0 {
            seq!["recorded "@ + joined(recorded_parts(*facts), ", "@)]
        } else {
            Seq::empty()
        }),
{
    let ghost a = strings(lines@);
    let mut parts: Vec<Vec<char>> = Vec::new();
    if facts.decisions > 0 {
        let mut p: Vec<char> = Vec::new();
        push_plural(&mut p, facts.decisions as u64, "decision", "decisions");
        parts.push(p);
    }
    if facts.findings > 0 {
        let mut p: Vec<char> = Vec::new();
        push_plural(&mut p, facts.findings as u64, "finding", "findings");
        parts.push(p);
    }
    if facts.changes > 0 {
        let mut p: Vec<char> = Vec::new();
        push_plural(&mut p, facts.changes as u64, "change", "changes");
        parts.push(p);
    }
    assert(views(parts@) =~= recorded_parts(*facts));
    if parts.len() > 0 {
        let mut l = chars_of("recorded ");
        let j = crate::text::join_with(&parts, ", ");
        append(&mut l, &j);
        push_line(lines, &l);
    } else {
        assert(strings(lines@) =~= a + Seq::<Seq<char>>::empty());
    }
}

fn report_of(facts: &DigestFacts, next_stage: Option<&str>, signal: Option<&str>) -> (r: Vec<String>)
    ensures
        strings(r@) == report_lines(
            *facts,
            match next_stage {
                Some(s) => Some(s@),
                None => None,
            },
            match signal {
                Some(s) => Some(s@),
                None => None,
            },
        ),
{
    let mut lines: Vec<String> = Vec::new();
    match signal {
        Some(s) => push_line(&mut lines, &chars_of(s)),
        None => {},
    }
    shipped_of(facts, &mut lines);
    recorded_of(facts, &mut lines);
    if facts.waiting > 0 {
        let mut l = chars_of("waiting on you: ");
        push_plural(&mut l, facts.waiting as u64, "question", "questions");
        push_line(&mut lines, &l);
    }
    match next_stage {
        Some(st) => {
            let mut l = chars_of("next: ");
            let name = stage_name_chars(&chars_of(st));
            append(&mut l, &name);
            push_line(&mut lines, &l);
        },
        None => {},
    }
    lines
}

/// The five lines of a digest for one project, at most.
pub fn digest_lines(facts: &DigestFacts, next_stage: Option<&str>, quiet_days: Option<i64>, signal: Option<&str>) -> (r: Vec<String>)
    ensures
        strings(r@) == digest(
            *facts,
            match next_stage {
                Some(s) => Some(s@),
                None => None,
            },
            quiet_days,
            match signal {
                Some(s) => Some(s@),
                None => None,
            },
        ),
{
    let mut lines = report_of(facts, next_stage, signal);
    if lines.len() == 0 {
        match quiet_days {
            Some(d) => {
                let mut l: Vec<char> = Vec::new();
                if d == 0 {
                    crate::text::append_str(&mut l, "nothing recorded, though something happened today");
                } else if d == 1 {
                    crate::text::append_str(&mut l, "nothing this week; last touched yesterday");
                } else {
                    crate::text::append_str(&mut l, "nothing this week; last touched ");
                    crate::text::push_signed(&mut l, d);
                    crate::text::append_str(&mut l, " days ago");
                }
                push_line(&mut lines, &l);
            },
            None => {},
        }
    }
    lines
}

/// A digest is five lines at most, whatever the facts.
pub proof fn law_digest_is_five_lines_at_most(
    f: DigestFacts,
    next: Option<Seq<char>>,
    quiet: Option<i64>,
    signal: Option<Seq<char>>,
)
    ensures
        digest(f, next, quiet, signal).len() <= 5,
{
}

/// When releases shipped, the digest names them right after the signal, if
/// there is one: the one release by name, or the range from the first to
/// the last of the list with how many there were.
pub proof fn law_the_digest_names_the_range_shipped(
    f: DigestFacts,
    next: Option<Seq<char>>,
    quiet: Option<i64>,
    signal: Option<Seq<char>>,
)
    requires
        f.shipped@.len() > 0,
    ensures
        ({
            let at = if signal is Some {
                1int
            } else {
                0int
            };
            let first = f.shipped@[0]@;
            let last = f.shipped@[f.shipped@.len() - 1]@;
            let n = f.shipped@.len();
            &&& digest(f, next, quiet, signal).len() > at
            &&& digest(f, next, quiet, signal)[at] == if n == 1 {
                "shipped "@ + first
            } else {
                "shipped "@ + first + " — "@ + last + " ("@ + crate::text::decimal(n) + " releases)"@
            }
        }),
{
    let lines = report_lines(f, next, signal);
    let sh = shipped_lines(strings(f.shipped@));
    let head = match signal {
        Some(x) => seq![x],
        None => Seq::<Seq<char>>::empty(),
    };
    assert(strings(f.shipped@)[0] == f.shipped@[0]@);
    assert(strings(f.shipped@).last() == f.shipped@[f.shipped@.len() - 1]@);
    assert(sh.len() == 1);
    assert(lines[head.len() as int] == sh[0]);
}

proof fn lemma_joined_mentions(ps: Seq<Seq<char>>, sep: Seq<char>, k: int)
    requires
        0 <= k < ps.len(),
    ensures
        crate::context::mentions(joined(ps, sep), ps[k]),
    decreases ps.len(),
{
    if ps.len() == 1 {
        assert(joined(ps, sep).subrange(0, ps[0].len() as int) =~= ps[0]);
        crate::context::lemma_mentions_at(joined(ps, sep), ps[0], 0);
    } else {
        let init = ps.drop_last();
        let front = joined(init, sep);
        assert(joined(ps, sep) == front + sep + ps.last());
        if k < ps.len() - 1 {
            lemma_joined_mentions(init, sep, k);
            assert(init[k] == ps[k]);
            crate::context::lemma_mentions_within(Seq::empty(), front, sep + ps.last(), ps[k]);
            assert(Seq::<char>::empty() + front + (sep + ps.last()) =~= joined(ps, sep));
        } else {
            let t = joined(ps, sep);
            let at = front.len() + sep.len();
            assert(t.subrange(at as int, (at + ps[k].len()) as int) =~= ps[k]);
            crate::context::lemma_mentions_at(t, ps[k], at as int);
        }
    }
}

/// A digest names every count that is not zero: the decisions, findings
/// and changes recorded each appear in one of its lines, and the questions
/// waiting have a line of their own.
pub proof fn law_the_digest_names_every_count(
    f: DigestFacts,
    next: Option<Seq<char>>,
    quiet: Option<i64>,
    signal: Option<Seq<char>>,
)
    ensures
        f.decisions > 0 ==> exists|k: int|
            0 <= k < digest(f, next, quiet, signal).len() && crate::context::mentions(
                #[trigger] digest(f, next, quiet, signal)[k],
                plural_text(f.decisions as nat, "decision"@, "decisions"@),
            ),
        f.findings > 0 ==> exists|k: int|
            0 <= k < digest(f, next, quiet, signal).len() && crate::context::mentions(
                #[trigger] digest(f, next, quiet, signal)[k],
                plural_text(f.findings as nat, "finding"@, "findings"@),
            ),
        f.changes > 0 ==> exists|k: int|
            0 <= k < digest(f, next, quiet, signal).len() && crate::context::mentions(
                #[trigger] digest(f, next, quiet, signal)[k],
                plural_text(f.changes as nat, "change"@, "changes"@),
            ),
        f.waiting > 0 ==> digest(f, next, quiet, signal).contains(
            "waiting on you: "@ + plural_text(f.waiting as nat, "question"@, "questions"@),
        ),
{
    let parts = recorded_parts(f);
    let head = (match signal {
        Some(x) => seq![x],
        None => Seq::<Seq<char>>::empty(),
    }) + shipped_lines(strings(f.shipped@));
    let rec_line = "recorded "@ + joined(parts, ", "@);
    let rec = if parts.len() > 0 {
        seq![rec_line]
    } else {
        Seq::<Seq<char>>::empty()
    };
    let wait = if f.waiting > 0 {
        seq!["waiting on you: "@ + plural_text(f.waiting as nat, "question"@, "questions"@)]
    } else {
        Seq::<Seq<char>>::empty()
    };
    let lines = report_lines(f, next, signal);
    let tail = match next {
        Some(st) => seq!["next: "@ + stage_name_of(st)],
        None => Seq::<Seq<char>>::empty(),
    };
    assert(lines =~= head + rec + wait + tail);
    if parts.len() > 0 || f.waiting > 0 {
        assert(lines.len() > 0);
        assert(digest(f, next, quiet, signal) == lines);
    }
    if parts.len() > 0 {
        let k = head.len() as int;
        assert(lines[k] == rec_line);
        let one = |n: nat, a: Seq<char>, b: Seq<char>| if n > 0 {
            seq![plural_text(n, a, b)]
        } else {
            Seq::<Seq<char>>::empty()
        };
        let d = one(f.decisions as nat, "decision"@, "decisions"@);
        let fi = one(f.findings as nat, "finding"@, "findings"@);
        let c = one(f.changes as nat, "change"@, "changes"@);
        assert(parts =~= d + fi + c);
        if f.decisions > 0 {
            lemma_joined_mentions(parts, ", "@, 0);
            crate::context::lemma_mentions_within("recorded "@, joined(parts, ", "@), Seq::empty(), parts[0]);
            assert("recorded "@ + joined(parts, ", "@) + Seq::<char>::empty() =~= rec_line);
        }
        if f.findings > 0 {
            let i = d.len() as int;
            lemma_joined_mentions(parts, ", "@, i);
            crate::context::lemma_mentions_within("recorded "@, joined(parts, ", "@), Seq::empty(), parts[i]);
            assert("recorded "@ + joined(parts, ", "@) + Seq::<char>::empty() =~= rec_line);
        }
        if f.changes > 0 {
            let i = d.len() + fi.len();
            lemma_joined_mentions(parts, ", "@, i as int);
            crate::context::lemma_mentions_within("recorded "@, joined(parts, ", "@), Seq::empty(), parts[i as int]);
            assert("recorded "@ + joined(parts, ", "@) + Seq::<char>::empty() =~= rec_line);
        }
    }
    if f.waiting > 0 {
        assert(lines[(head.len() + rec.len()) as int] == wait[0]);
    }
}

/// A digest opens with the signal when there is one and closes with the
/// next stage when there is one; with nothing to report it is one line on
/// how long the project has been quiet, when that is known, and empty
/// otherwise.
pub proof fn law_the_digest_frames_its_report(
    f: DigestFacts,
    next: Option<Seq<char>>,
    quiet: Option<i64>,
    signal: Option<Seq<char>>,
)
    ensures
        signal matches Some(x) ==> digest(f, next, quiet, signal).len() > 0 && digest(f, next, quiet, signal)[0] == x,
        next matches Some(st) ==> digest(f, next, quiet, signal).len() > 0 && digest(f, next, quiet, signal).last() == "next: "@
            + stage_name_of(st),
        (signal is None && next is None && f.shipped@.len() == 0 && f.decisions == 0 && f.findings == 0 && f.changes == 0
            && f.waiting == 0) ==> digest(f, next, quiet, signal) == match quiet {
            Some(d) => seq![
                if d == 0 {
                    "nothing recorded, though something happened today"@
                } else if d == 1 {
                    "nothing this week; last touched yesterday"@
                } else {
                    "nothing this week; last touched "@ + crate::text::signed_decimal(d as int) + " days ago"@
                },
            ],
            None => Seq::<Seq<char>>::empty(),
        },
{
    let parts = recorded_parts(f);
    let sig = match signal {
        Some(x) => seq![x],
        None => Seq::<Seq<char>>::empty(),
    };
    let mid = shipped_lines(strings(f.shipped@)) + (if parts.len() > 0 {
        seq!["recorded "@ + joined(parts, ", "@)]
    } else {
        Seq::<Seq<char>>::empty()
    }) + (if f.waiting > 0 {
        seq!["waiting on you: "@ + plural_text(f.waiting as nat, "question"@, "questions"@)]
    } else {
        Seq::<Seq<char>>::empty()
    });
    let tail = match next {
        Some(st) => seq!["next: "@ + stage_name_of(st)],
        None => Seq::<Seq<char>>::empty(),
    };
    let lines = report_lines(f, next, signal);
    assert(lines =~= sig + mid + tail);
    if signal is Some || next is Some {
        assert(lines.len() > 0);
        assert(digest(f, next, quiet, signal) == lines);
    }
    if signal is None && next is None && f.shipped@.len() == 0 && f.decisions == 0 && f.findings == 0 && f.changes == 0
        && f.waiting == 0 {
        assert(strings(f.shipped@).len() == 0);
        assert(parts =~= Seq::<Seq<char>>::empty());
        assert(lines =~= Seq::<Seq<char>>::empty());
    }
}

/// The most shared question comes first: no group is listed after one
/// more projects share, or as many and a subject that sorts first.
pub proof fn law_most_shared_first(ws: Seq<Waiting>)
    ensures
        crate::order::in_order(stable_sort(shared_groups(groups(ws)), shared_order()), shared_order()),
        stable_sort(shared_groups(groups(ws)), shared_order()).to_multiset() == shared_groups(groups(ws)).to_multiset(),
{
    assert forall|a: (Seq<char>, Seq<Seq<char>>)| !#[trigger] (shared_order())(a, a) by {
        crate::order::lemma_text_order(a.0, a.0, a.0);
    }
    assert forall|a: (Seq<char>, Seq<Seq<char>>), b: (Seq<char>, Seq<Seq<char>>), c: (Seq<char>, Seq<Seq<char>>)|
        #[trigger] (shared_order())(a, b) && #[trigger] (shared_order())(b, c) implies (shared_order())(a, c) by {
        crate::order::lemma_text_order(a.0, b.0, c.0);
    }
    crate::order::law_sorted_is_in_order(shared_groups(groups(ws)), shared_order());
}

/// The questions of one project, in the order they came.
pub open spec fn only_project(ws: Seq<Waiting>, p: Seq<char>) -> Seq<Waiting>
    decreases ws.len(),
{
    if ws.len() == 0 {
        Seq::empty()
    } else {
        let init = only_project(ws.drop_last(), p);
        if ws.last().project@ == p {
            init.push(ws.last())
        } else {
            init
        }
    }
}

pub open spec fn kept(ws: Seq<Waiting>, project: Option<Seq<char>>) -> Seq<Waiting> {
    match project {
        Some(p) => only_project(ws, p),
        None => ws,
    }
}

pub open spec fn project_names(ws: Seq<Waiting>) -> Seq<Seq<char>> {
    ws.map_values(|w: Waiting| w.project@)
}

/// How many projects the questions come from.
pub open spec fn distinct_projects(ws: Seq<Waiting>) -> nat
    decreases ws.len(),
{
    if ws.len() == 0 {
        0
    } else {
        distinct_projects(ws.drop_last()) + if project_names(ws.drop_last()).contains(ws.last().project@) {
            0nat
        } else {
            1nat
        }
    }
}

/// A text made up to a width with spaces before it (`{:>width$}`).
pub open spec fn lpad(s: Seq<char>, w: nat) -> Seq<char> {
    if s.len() >= w {
        s
    } else {
        crate::calendar::spaces((w - s.len()) as nat) + s
    }
}

/// One waiting question: its project, unless the line above named it, its
/// id, its date and what it asks.
pub open spec fn question_line(prev: Option<Seq<char>>, w: Waiting) -> Seq<char> {
    crate::calendar::pad(
        if prev == Some(w.project@) {
            Seq::empty()
        } else {
            w.project@
        },
        12,
    ) + " ["@ + lpad(crate::text::signed_decimal(w.id as int), 3) + "] "@ + w.date@ + "  "@ + subject_of(w.body@)
}

pub open spec fn question_lines(ws: Seq<Waiting>) -> Seq<Seq<char>>
    decreases ws.len(),
{
    if ws.len() == 0 {
        Seq::empty()
    } else {
        question_lines(ws.drop_last()).push(
            question_line(
                if ws.len() > 1 {
                    Some(ws[ws.len() - 2].project@)
                } else {
                    None
                },
                ws.last(),
            ),
        )
    }
}

pub open spec fn group_line(g: (Seq<char>, Seq<Seq<char>>)) -> Seq<char> {
    "  "@ + g.0 + " — "@ + joined(g.1, ", "@)
}

/// The screen of questions waiting for the owner: how many, from how many
/// projects, each grouped under its project oldest first, then the
/// subjects several projects ask, which one answer settles.
pub open spec fn inbox_text(all: Seq<Waiting>, project: Option<Seq<char>>) -> Seq<Seq<char>> {
    let ws = kept(all, project);
    if ws.len() == 0 {
        match project {
            Some(p) => seq![p + " is waiting on nothing."@],
            None => seq!["Nothing is waiting on you."@],
        }
    } else {
        let head = match project {
            Some(_) => plural_text(ws.len(), "question"@, "questions"@),
            None => plural_text(ws.len(), "question"@, "questions"@) + " in "@ + plural_text(
                distinct_projects(ws),
                "project"@,
                "projects"@,
            ),
        };
        let shared = stable_sort(shared_groups(groups(ws)), shared_order());
        seq![head, Seq::empty()] + question_lines(ws) + (if shared.len() > 0 {
            seq![Seq::empty(), "Asked by several projects - one answer settles each group:"@] + shared.map_values(
                |g: (Seq<char>, Seq<Seq<char>>)| group_line(g),
            )
        } else {
            Seq::empty()
        }) + seq![Seq::empty(), "Answer one with: rigger resolve <project> <id> \"<answer>\""@]
    }
}

fn only_of(waiting: &[Waiting], project: Option<&str>) -> (r: Vec<Waiting>)
    ensures
        r@ == kept(waiting@, match project {
            Some(p) => Some(p@),
            None => None,
        }),
{
    let mut out: Vec<Waiting> = Vec::new();
    let mut i: usize = 0;
    while i < waiting.len()
        invariant
            i <= waiting.len(),
            out@ == kept(waiting@.take(i as int), match project {
                Some(p) => Some(p@),
                None => None,
            }),
        decreases waiting.len() - i,
    {
        assert(waiting@.take(i + 1).drop_last() =~= waiting@.take(i as int));
        assert(waiting@.take(i + 1).last() == waiting@[i as int]);
        let keep = match project {
            Some(p) => crate::text::same_str(&chars_of_string(&waiting[i].project), p),
            None => true,
        };
        if keep {
            let w = &waiting[i];
            out.push(Waiting { project: w.project.clone(), id: w.id, date: w.date.clone(), body: w.body.clone() });
        }
        i = i + 1;
    }
    assert(waiting@.take(waiting.len() as int) =~= waiting@);
    out
}

proof fn lemma_contains_push(s: Seq<Seq<char>>, x: Seq<char>, y: Seq<char>)
    ensures
        s.push(x).contains(y) == (s.contains(y) || x == y),
{
    if s.contains(y) {
        let j = choose|j: int| 0 <= j < s.len() && s[j] == y;
        assert(s.push(x)[j] == y);
    }
    if x == y {
        assert(s.push(x)[s.len() as int] == y);
    }
    if s.push(x).contains(y) {
        let j = choose|j: int| 0 <= j < s.push(x).len() && s.push(x)[j] == y;
        if j < s.len() {
            assert(s[j] == y);
        }
    }
}

fn count_projects(ws: &Vec<Waiting>) -> (r: usize)
    ensures
        r == distinct_projects(ws@),
{
    let mut n: usize = 0;
    let mut i: usize = 0;
    while i < ws.len()
        invariant
            i <= ws.len(),
            n == distinct_projects(ws@.take(i as int)),
            n <= i,
        decreases ws.len() - i,
    {
        let ghost t = ws@.take(i + 1);
        assert(t.drop_last() =~= ws@.take(i as int));
        assert(t.last() == ws@[i as int]);
        let mut seen = false;
        let mut k: usize = 0;
        while k < i
            invariant
                k <= i < ws.len(),
                seen == project_names(ws@.take(i as int)).take(k as int).contains(ws@[i as int].project@),
            decreases i - k,
        {
            let ghost names = project_names(ws@.take(i as int));
            assert(names.take(k + 1) =~= names.take(k as int).push(ws@[k as int].project@));
            proof {
                lemma_contains_push(names.take(k as int), ws@[k as int].project@, ws@[i as int].project@);
            }
            if crate::text::same(&chars_of_string(&ws[k].project), &chars_of_string(&ws[i].project)) {
                seen = true;
            }
            k = k + 1;
        }
        assert(project_names(ws@.take(i as int)).take(i as int) =~= project_names(ws@.take(i as int)));
        if !seen {
            n = n + 1;
        }
        i = i + 1;
    }
    assert(ws@.take(ws.len() as int) =~= ws@);
    n
}

/// The screen of questions waiting for the owner, a line at a time; with a
/// project, only its questions.
pub fn inbox_lines(waiting: &[Waiting], project: Option<&str>) -> (r: Vec<String>)
    ensures
        strings(r@) == inbox_text(waiting@, match project {
            Some(p) => Some(p@),
            None => None,
        }),
{
    let ws = only_of(waiting, project);
    let mut lines: Vec<String> = Vec::new();
    if ws.len() == 0 {
        let mut line: Vec<char> = Vec::new();
        match project {
            Some(p) => {
                append_str(&mut line, p);
                append_str(&mut line, " is waiting on nothing.");
            },
            None => append_str(&mut line, "Nothing is waiting on you."),
        }
        push_line(&mut lines, &line);
        return lines;
    }
    let mut head: Vec<char> = Vec::new();
    push_plural(&mut head, ws.len() as u64, "question", "questions");
    if project.is_none() {
        append_str(&mut head, " in ");
        push_plural(&mut head, count_projects(&ws) as u64, "project", "projects");
    }
    push_line(&mut lines, &head);
    push_line(&mut lines, &Vec::new());
    let ghost top = strings(lines@);
    let mut i: usize = 0;
    while i < ws.len()
        invariant
            i <= ws.len(),
            strings(lines@) == top + question_lines(ws@.take(i as int)),
        decreases ws.len() - i,
    {
        let w = &ws[i];
        let ghost t = ws@.take(i + 1);
        assert(t.drop_last() =~= ws@.take(i as int));
        assert(t.last() == *w);
        let mut line: Vec<char> = Vec::new();
        let same = i > 0 && crate::text::same(&chars_of_string(&ws[i - 1].project), &chars_of_string(&w.project));
        if i > 0 {
            assert(t[t.len() - 2] == ws@[i - 1]);
        }
        let name = if same {
            Vec::new()
        } else {
            chars_of_string(&w.project)
        };
        crate::calendar::push_pad(&mut line, &name, 12);
        append_str(&mut line, " [");
        let mut id: Vec<char> = Vec::new();
        crate::text::push_signed(&mut id, w.id);
        assert(id@ =~= crate::text::signed_decimal(w.id as int));
        if id.len() < 3 {
            let mut k = id.len();
            let ghost start = line@;
            while k < 3
                invariant
                    id.len() <= k <= 3,
                    line@ == start + crate::calendar::spaces((k - id.len()) as nat),
                decreases 3 - k,
            {
                line.push(' ');
                assert(start + crate::calendar::spaces((k + 1 - id.len()) as nat) =~= (start + crate::calendar::spaces(
                    (k - id.len()) as nat,
                )).push(' '));
                k = k + 1;
            }
        }
        append(&mut line, &id);
        append_str(&mut line, "] ");
        append(&mut line, &chars_of_string(&w.date));
        append_str(&mut line, "  ");
        append(&mut line, &chars_of_string(&subject(w.body.as_str())));
        assert(line@ =~= question_line(if t.len() > 1 { Some(t[t.len() - 2].project@) } else { None }, *w));
        push_line(&mut lines, &line);
        i = i + 1;
    }
    assert(ws@.take(ws.len() as int) =~= ws@);
    let shared = shared_subjects(ws.as_slice());
    let ghost sg = stable_sort(shared_groups(groups(ws@)), shared_order());
    if shared.len() > 0 {
        push_line(&mut lines, &Vec::new());
        push_line(&mut lines, &chars_of("Asked by several projects - one answer settles each group:"));
        let ghost mid = strings(lines@);
        let mut j: usize = 0;
        while j < shared.len()
            invariant
                j <= shared.len(),
                shared@.map_values(|s: Shared| shared_view(s)) == sg,
                strings(lines@) == mid + sg.take(j as int).map_values(|g: (Seq<char>, Seq<Seq<char>>)| group_line(g)),
            decreases shared.len() - j,
        {
            let g = &shared[j];
            assert(sg[j as int] == shared_view(*g));
            let mut ps: Vec<Vec<char>> = Vec::new();
            let mut k: usize = 0;
            while k < g.projects.len()
                invariant
                    k <= g.projects.len(),
                    views(ps@) == strings(g.projects@).take(k as int),
                decreases g.projects.len() - k,
            {
                let ghost b = views(ps@);
                ps.push(chars_of_string(&g.projects[k]));
                assert(views(ps@) =~= b.push(g.projects@[k as int]@));
                assert(strings(g.projects@).take(k + 1) =~= strings(g.projects@).take(k as int).push(g.projects@[k as int]@));
                k = k + 1;
            }
            assert(strings(g.projects@).take(g.projects.len() as int) =~= strings(g.projects@));
            let mut line: Vec<char> = Vec::new();
            append_str(&mut line, "  ");
            append(&mut line, &chars_of_string(&g.subject));
            append_str(&mut line, " — ");
            append(&mut line, &crate::text::join_with(&ps, ", "));
            assert(line@ =~= group_line(sg[j as int]));
            push_line(&mut lines, &line);
            assert(sg.take(j + 1).map_values(|g: (Seq<char>, Seq<Seq<char>>)| group_line(g)) =~= sg.take(
                j as int,
            ).map_values(|g: (Seq<char>, Seq<Seq<char>>)| group_line(g)).push(group_line(sg[j as int])));
            j = j + 1;
        }
        assert(sg.take(shared.len() as int) =~= sg);
    } else {
        assert(shared@.map_values(|s: Shared| shared_view(s)).len() == 0);
    }
    push_line(&mut lines, &Vec::new());
    push_line(&mut lines, &chars_of("Answer one with: rigger resolve <project> <id> \"<answer>\""));
    lines
}

/// A window of days as the digest takes it: `7d`, `30d`, or a bare number
/// of days, never fewer than none.
pub open spec fn days_in(since: Seq<char>) -> Option<int> {
    match crate::number::parsed(drop_tail(trim(since), Class::Either('d', 'D')), i64::MIN as int, i64::MAX as int) {
        Some(d) => if d >= 0 {
            Some(d)
        } else {
            None
        },
        None => None,
    }
}

pub fn parse_days(since: &str) -> (r: Option<i64>)
    ensures
        r matches Some(d) ==> days_in(since@) == Some(d as int),
        r is None ==> days_in(since@) is None,
{
    let digits = dropped_tail(&trimmed(&chars_of(since)), Class::Either('d', 'D'));
    match crate::number::parse_in(&digits, i64::MIN, i64::MAX) {
        Some(d) => if d >= 0 {
            Some(d)
        } else {
            None
        },
        None => None,
    }
}

/// What the digest found for one project: its facts, its lines, and
/// whether it raises a signal.
pub struct DigestReport {
    pub project: String,
    pub facts: DigestFacts,
    pub lines: Vec<String>,
    pub signal: bool,
}

/// A project moved when it raises a signal, shipped, or recorded anything;
/// one with nothing but its next stage to report has not. A signal is the
/// exception that matters: a product that stopped releasing is quiet by
/// definition, and folding it into the quiet line is how it stays
/// unnoticed.
pub open spec fn moved(r: DigestReport) -> bool {
    r.signal || r.facts.shipped@.len() > 0 || r.facts.decisions + r.facts.findings + r.facts.changes > 0
}

pub open spec fn indented(lines: Seq<Seq<char>>) -> Seq<Seq<char>> {
    lines.map_values(|l: Seq<char>| "  "@ + l)
}

/// The lines of the projects listed, each under its name.
pub open spec fn listed_lines(rs: Seq<DigestReport>, all: bool) -> Seq<Seq<char>>
    decreases rs.len(),
{
    if rs.len() == 0 {
        Seq::empty()
    } else {
        let r = rs.last();
        listed_lines(rs.drop_last(), all) + if all || moved(r) {
            seq![r.project@] + indented(strings(r.lines@))
        } else {
            Seq::empty()
        }
    }
}

pub open spec fn listed_count(rs: Seq<DigestReport>, all: bool) -> nat
    decreases rs.len(),
{
    if rs.len() == 0 {
        0
    } else {
        listed_count(rs.drop_last(), all) + if all || moved(rs.last()) {
            1nat
        } else {
            0
        }
    }
}

/// The names of the projects that did not move.
pub open spec fn quiet_names(rs: Seq<DigestReport>) -> Seq<Seq<char>>
    decreases rs.len(),
{
    if rs.len() == 0 {
        Seq::empty()
    } else {
        quiet_names(rs.drop_last()) + if moved(rs.last()) {
            Seq::empty()
        } else {
            seq![rs.last().project@]
        }
    }
}

/// The digest screen: the window, then each project that moved with its
/// lines - every project asked for, when one was - then the quiet ones in
/// one line, since naming them beats five lines that say nothing happened.
pub open spec fn digest_screen_text(rs: Seq<DigestReport>, one: bool, from: Seq<char>) -> Seq<Seq<char>> {
    seq!["Since "@ + from, Seq::empty()] + listed_lines(rs, one) + (if listed_count(rs, one) == 0 {
        seq!["Nothing moved."@]
    } else {
        Seq::empty()
    }) + (if !one && quiet_names(rs).len() > 0 {
        seq![Seq::empty(), "Quiet: "@ + joined(quiet_names(rs), ", "@)]
    } else {
        Seq::empty()
    })
}

fn has_moved(r: &DigestReport) -> (b: bool)
    ensures
        b == moved(*r),
{
    r.signal || r.facts.shipped.len() > 0 || (r.facts.decisions as u64 + r.facts.findings as u64
        + r.facts.changes as u64) > 0
}

pub fn digest_screen(reports: &[DigestReport], one: bool, from: &str) -> (r: Vec<String>)
    ensures
        strings(r@) == digest_screen_text(reports@, one, from@),
{
    let mut lines: Vec<String> = Vec::new();
    let mut head = chars_of("Since ");
    append_str(&mut head, from);
    push_line(&mut lines, &head);
    push_line(&mut lines, &Vec::new());
    let ghost top = strings(lines@);
    let mut quiet: Vec<Vec<char>> = Vec::new();
    let mut count: usize = 0;
    let mut i: usize = 0;
    while i < reports.len()
        invariant
            i <= reports.len(),
            count <= i,
            strings(lines@) == top + listed_lines(reports@.take(i as int), one),
            count == listed_count(reports@.take(i as int), one),
            views(quiet@) == quiet_names(reports@.take(i as int)),
        decreases reports.len() - i,
    {
        let r = &reports[i];
        let ghost t = reports@.take(i + 1);
        assert(t.drop_last() =~= reports@.take(i as int));
        assert(t.last() == *r);
        let m = has_moved(r);
        if one || m {
            push_line(&mut lines, &chars_of_string(&r.project));
            let ghost mid = strings(lines@);
            let mut j: usize = 0;
            while j < r.lines.len()
                invariant
                    j <= r.lines.len(),
                    strings(lines@) == mid + indented(strings(r.lines@).take(j as int)),
                decreases r.lines.len() - j,
            {
                let mut l = chars_of("  ");
                append(&mut l, &chars_of_string(&r.lines[j]));
                push_line(&mut lines, &l);
                assert(indented(strings(r.lines@).take(j + 1)) =~= indented(strings(r.lines@).take(j as int)).push(
                    "  "@ + r.lines@[j as int]@,
                ));
                j = j + 1;
            }
            assert(strings(r.lines@).take(r.lines.len() as int) =~= strings(r.lines@));
            assert(strings(lines@) =~= top + listed_lines(t, one));
            count = count + 1;
        } else {
            assert(strings(lines@) =~= top + listed_lines(t, one));
        }
        if !m {
            let ghost qb = views(quiet@);
            quiet.push(chars_of_string(&r.project));
            assert(views(quiet@) =~= qb.push(r.project@));
            assert(quiet_names(t) =~= qb + seq![r.project@]);
        } else {
            assert(quiet_names(t) =~= quiet_names(reports@.take(i as int)));
        }
        i = i + 1;
    }
    assert(reports@.take(reports.len() as int) =~= reports@);
    let ghost body = strings(lines@);
    if count == 0 {
        push_line(&mut lines, &chars_of("Nothing moved."));
    }
    let ghost mid = strings(lines@);
    if !one && quiet.len() > 0 {
        push_line(&mut lines, &Vec::new());
        let mut q = chars_of("Quiet: ");
        append(&mut q, &crate::text::join_with(&quiet, ", "));
        push_line(&mut lines, &q);
    }
    assert(strings(lines@) =~= digest_screen_text(reports@, one, from@));
    lines
}

} // verus!
