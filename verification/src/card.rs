//! Task cards: finding the one that is meant, and what a card says.
//!
//! A task arrives as a line of text: a ticket id, customer numbers, a
//! title. A card is looked for by everything the line holds, and the answer
//! says how sure it is. What here is whole numbers (the ids, the numbers,
//! the words, the bigrams two texts share, the ranking and the verdict) is
//! verified; the weighting of the title match is floating point and is
//! left to the program around the library.
use vstd::prelude::*;
use crate::text::{alphanumeric, is_alphanumeric, all_in, append, chars_of, chars_of_string, drop_lead, drop_tail, dropped_lead, dropped_tail, split_by, split_class, strings, text_of, trim, trimmed, upper_all, upper_text, views, Class};

verus! {

/// A card as the record holds it.
#[derive(Debug, Clone)]
pub struct Card {
    pub id: i64,
    pub key: String,
    pub title: String,
    pub status: String,
    pub aliases: Vec<String>,
    pub summary: Option<String>,
    pub created_at: String,
    pub updated_at: Option<String>,
}

/// A card's link to a repository.
#[derive(Debug, Clone)]
pub struct Link {
    pub project: String,
    pub path: String,
    pub branch: Option<String>,
    pub role: Option<String>,
}

/// What git says about a card in one repository it is worked in.
#[derive(Debug, Clone)]
pub struct Activity {
    pub project: String,
    /// The branches whose name carries the card's, local ones first.
    pub branches: Vec<Branch>,
    /// How many of the commits read name the card in their message.
    pub commits: u32,
    /// The newest movement: the newest of those commits and the branch tips.
    pub last_commit: Option<Commit>,
}

/// A branch a card is worked on.
#[derive(Debug, Clone)]
pub struct Branch {
    pub name: String,
    /// The remote it is on, when there is no local branch of that name.
    pub remote: Option<String>,
    pub tip: String,
    pub tip_at: String,
}

#[derive(Debug, Clone)]
pub struct Commit {
    pub hash: String,
    pub at: String,
    pub subject: String,
}

/// One candidate for a query, and why it scored.
#[derive(Debug, Clone)]
pub struct Hit {
    pub score: u32,
    pub key: String,
    pub status: String,
    pub title: String,
    pub why: String,
}

/// What to do with the candidates.
#[derive(Debug, Clone, Copy, PartialEq, Eq, Structural)]
pub enum Verdict {
    /// One card is it; take it without asking.
    Take,
    /// Several could be it, or one is close: show them and ask.
    Ask,
    /// Nothing is close; the task is new.
    New,
}

/// What a query line breaks into.
#[derive(Debug, Clone, PartialEq, Eq)]
pub struct Query {
    pub ids: Vec<String>,
    pub numbers: Vec<String>,
    /// The line without its ids and numbers.
    pub text: String,
}

/// What `char::to_lowercase` makes of a character.
pub uninterp spec fn lower_case(c: char) -> Seq<char>;

/// `char::to_lowercase`, collected.
#[verifier::external_body]
fn lowercase_of(c: char) -> (r: Vec<char>)
    ensures
        r@ == lower_case(c),
{
    c.to_lowercase().collect()
}

/// A text lower-cased character by character.
pub open spec fn lowered(s: Seq<char>) -> Seq<char>
    decreases s.len(),
{
    if s.len() == 0 {
        Seq::empty()
    } else {
        lowered(s.drop_last()) + lower_case(s.last())
    }
}

/// One step of normalising: `ё` read as `е`, a letter or digit kept, with
/// one space before it when something else came between it and the last
/// one kept; anything else remembered as a gap.
pub open spec fn norm_step(st: (Seq<char>, bool), c: char) -> (Seq<char>, bool) {
    let c = if c == 'ё' {
        'е'
    } else {
        c
    };
    if alphanumeric(c) {
        (if st.1 && st.0.len() > 0 {
            st.0.push(' ')
        } else {
            st.0
        }.push(c), false)
    } else {
        (st.0, true)
    }
}

pub open spec fn norm_state(s: Seq<char>) -> (Seq<char>, bool)
    decreases s.len(),
{
    if s.len() == 0 {
        (Seq::empty(), false)
    } else {
        norm_step(norm_state(s.drop_last()), s.last())
    }
}

/// Lower case, `ё` as `е`, letters and digits only, single spaces.
pub open spec fn normalised(s: Seq<char>) -> Seq<char> {
    norm_state(lowered(s)).0
}

fn normal_chars(s: &Vec<char>) -> (r: Vec<char>)
    ensures
        r@ == normalised(s@),
        normal_only(r@),
        single_spaced(r@),
{
    let mut low: Vec<char> = Vec::new();
    for i in 0..s.len()
        invariant
            low@ == lowered(s@.take(i as int)),
    {
        assert(s@.take(i + 1).drop_last() =~= s@.take(i as int));
        let l = lowercase_of(s[i]);
        append(&mut low, &l);
    }
    assert(s@.take(s.len() as int) =~= s@);
    let mut out: Vec<char> = Vec::new();
    let mut space = false;
    for i in 0..low.len()
        invariant
            (out@, space) == norm_state(low@.take(i as int)),
            alphanumeric(' ') ==> spaceless(low@.take(i as int)),
    {
        assert(low@.take(i + 1).drop_last() =~= low@.take(i as int));
        let c = if low[i] == 'ё' {
            'е'
        } else {
            low[i]
        };
        if is_alphanumeric(c) {
            if space && out.len() > 0 {
                out.push(' ');
            }
            space = false;
            out.push(c);
        } else {
            space = true;
        }
    }
    assert(low@.take(low.len() as int) =~= low@);
    proof {
        lemma_norm_state_shape(low@);
    }
    out
}

/// Lower case, `ё` as `е`, letters and digits only, single spaces.
///
/// The result is letters, digits and single spaces between them, with no
/// `ё` in it.
pub fn normalise(text: &str) -> (r: String)
    ensures
        r@ == normalised(text@),
        normal_only(r@),
        single_spaced(r@),
{
    let s = chars_of(text);
    let out = normal_chars(&s);
    text_of(&out)
}

/// What a normalised text is made of: letters and digits, with `ё` read
/// as `е`, and spaces.
pub open spec fn normal_only(n: Seq<char>) -> bool {
    forall|i: int| 0 <= i < n.len() ==> #[trigger] n[i] != 'ё' && (n[i] == ' ' || alphanumeric(n[i]))
}

/// No space at either end, and never two together.
pub open spec fn single_spaced(n: Seq<char>) -> bool {
    &&& (n.len() > 0 ==> n[0] != ' ' && n.last() != ' ')
    &&& forall|i: int| 0 <= i < n.len() - 1 ==> !(#[trigger] n[i] == ' ' && n[i + 1] == ' ')
}

/// No space among the characters.
pub open spec fn spaceless(s: Seq<char>) -> bool {
    forall|i: int| 0 <= i < s.len() ==> #[trigger] s[i] != ' '
}

proof fn lemma_norm_state_shape(s: Seq<char>)
    ensures
        normal_only(norm_state(s).0),
        (!alphanumeric(' ') || spaceless(s)) ==> single_spaced(norm_state(s).0),
    decreases s.len(),
{
    if s.len() > 0 {
        lemma_norm_state_shape(s.drop_last());
        let st = norm_state(s.drop_last());
        let o = norm_state(s).0;
        let c = if s.last() == 'ё' {
            'е'
        } else {
            s.last()
        };
        if alphanumeric(c) {
            let before = if st.1 && st.0.len() > 0 {
                st.0.push(' ')
            } else {
                st.0
            };
            assert(o == before.push(c));
            assert forall|i: int| 0 <= i < o.len() implies #[trigger] o[i] != 'ё' && (o[i] == ' ' || alphanumeric(o[i])) by {
                if i < st.0.len() {
                    assert(o[i] == st.0[i]);
                }
            }
            if !alphanumeric(' ') || spaceless(s) {
                if spaceless(s) {
                    assert(s[s.len() - 1] != ' ');
                    assert forall|i: int| 0 <= i < s.drop_last().len() implies #[trigger] s.drop_last()[i] != ' ' by {
                        assert(s.drop_last()[i] == s[i]);
                    }
                }
                assert(c != ' ');
                assert forall|i: int| 0 <= i < o.len() - 1 implies !(#[trigger] o[i] == ' ' && o[i + 1] == ' ') by {
                    if i + 1 < st.0.len() {
                        assert(o[i] == st.0[i]);
                        assert(o[i + 1] == st.0[i + 1]);
                    } else if i + 1 == st.0.len() {
                        assert(o[i] == st.0.last());
                    }
                }
                if st.0.len() > 0 {
                    assert(o[0] == st.0[0]);
                }
            }
        }
    }
}

/// Normalising makes a text of letters, digits and spaces with no `ё` in
/// it; when a space is neither a letter nor a digit, as `char` has it, the
/// spaces are single and stand only between words. (`normalise` states
/// both of what it returns, with no condition.)
pub proof fn law_normalised_shape(t: Seq<char>)
    ensures
        normal_only(normalised(t)),
        !alphanumeric(' ') ==> single_spaced(normalised(t)),
{
    lemma_norm_state_shape(lowered(t));
}

proof fn lemma_lowered_fixed(n: Seq<char>)
    requires
        forall|i: int| 0 <= i < n.len() ==> lower_case(#[trigger] n[i]) == seq![n[i]],
    ensures
        lowered(n) == n,
    decreases n.len(),
{
    if n.len() > 0 {
        lemma_lowered_fixed(n.drop_last());
        assert(lower_case(n[n.len() - 1]) == seq![n.last()]);
        assert(n.drop_last() + seq![n.last()] =~= n);
    }
}

proof fn lemma_norm_state_fixed(n: Seq<char>, k: int)
    requires
        normal_only(n),
        !alphanumeric(' ') ==> single_spaced(n),
        0 <= k <= n.len(),
    ensures
        norm_state(n.take(k)) == (if !alphanumeric(' ') && k > 0 && n[k - 1] == ' ' {
            (n.take(k - 1), true)
        } else {
            (n.take(k), false)
        }),
    decreases k,
{
    if k > 0 {
        lemma_norm_state_fixed(n, k - 1);
        assert(n.take(k).drop_last() =~= n.take(k - 1));
        assert(n.take(k).last() == n[k - 1]);
        assert(n.take(k - 1).push(n[k - 1]) =~= n.take(k));
        assert(n[k - 1] != 'ё');
        if !alphanumeric(' ') && n[k - 1] != ' ' && k > 1 && n[k - 2] == ' ' {
            assert(n.take(k - 2).push(' ') =~= n.take(k - 1));
            assert(n[0] != ' ');
            assert(k - 2 > 0);
            assert(n.take(k - 2).len() > 0);
        }
        if !alphanumeric(' ') && n[k - 1] == ' ' {
            if k > 1 {
                assert(!(n[k - 2] == ' ' && n[k - 1] == ' '));
            } else {
                assert(n[0] != ' ');
            }
        }
    }
}

/// Normalising a normalised text changes nothing, as long as `to_lowercase`
/// leaves each of its characters as it is.
pub proof fn law_normalise_twice(t: Seq<char>)
    requires
        forall|i: int| 0 <= i < normalised(t).len() ==> lower_case(#[trigger] normalised(t)[i]) == seq![normalised(t)[i]],
    ensures
        normalised(normalised(t)) == normalised(t),
{
    let n = normalised(t);
    law_normalised_shape(t);
    lemma_lowered_fixed(n);
    lemma_norm_state_fixed(n, n.len() as int);
    assert(n.take(n.len() as int) =~= n);
    if !alphanumeric(' ') && n.len() > 0 {
        assert(n[n.len() - 1] != ' ');
    }
}

/// The pieces with at least three characters.
pub open spec fn long_words(ws: Seq<Seq<char>>) -> Seq<Seq<char>>
    decreases ws.len(),
{
    if ws.len() == 0 {
        Seq::empty()
    } else if ws.last().len() >= 3 {
        long_words(ws.drop_last()).push(ws.last())
    } else {
        long_words(ws.drop_last())
    }
}

/// Words of three letters or more, normalised.
pub open spec fn tokens_in(s: Seq<char>) -> Seq<Seq<char>> {
    long_words(split_class(normalised(s), Class::Is(' ')))
}

fn long_words_of(ws: &Vec<Vec<char>>) -> (r: Vec<Vec<char>>)
    ensures
        views(r@) == long_words(views(ws@)),
{
    let ghost all = views(ws@);
    let mut out: Vec<Vec<char>> = Vec::new();
    for i in 0..ws.len()
        invariant
            all == views(ws@),
            views(out@) == long_words(all.take(i as int)),
    {
        assert(all.take(i + 1).drop_last() =~= all.take(i as int));
        assert(all[i as int] == ws@[i as int]@);
        if ws[i].len() >= 3 {
            let ghost before = views(out@);
            out.push(crate::text::slice(&ws[i], 0, ws[i].len()));
            assert(ws@[i as int]@.subrange(0, ws@[i as int]@.len() as int) =~= ws@[i as int]@);
            assert(views(out@) =~= before.push(all[i as int]));
        }
    }
    assert(all.take(ws.len() as int) =~= all);
    out
}

fn as_strings(ws: &Vec<Vec<char>>) -> (r: Vec<String>)
    ensures
        strings(r@) == views(ws@),
{
    let mut out: Vec<String> = Vec::new();
    for i in 0..ws.len()
        invariant
            strings(out@) == views(ws@.take(i as int)),
    {
        let ghost before = strings(out@);
        out.push(text_of(&ws[i]));
        assert(strings(out@) =~= before.push(ws@[i as int]@));
        assert(views(ws@.take(i + 1)) =~= views(ws@.take(i as int)).push(ws@[i as int]@));
    }
    assert(ws@.take(ws.len() as int) =~= ws@);
    out
}

fn token_chars(s: &Vec<char>) -> (r: Vec<Vec<char>>)
    ensures
        views(r@) == tokens_in(s@),
{
    let n = normal_chars(s);
    let ws = split_by(&n, Class::Is(' '));
    long_words_of(&ws)
}

/// Words of three letters or more, normalised.
pub fn tokens(text: &str) -> (r: Vec<String>)
    ensures
        strings(r@) == tokens_in(text@),
{
    let s = chars_of(text);
    let t = token_chars(&s);
    as_strings(&t)
}

/// Whether a word is a ticket id: two to eight letters, a dash, and one to
/// six digits.
pub open spec fn is_ticket(w: Seq<char>) -> bool {
    match crate::text::split_once(w, "-"@) {
        Some((letters, digits)) => 2 <= letters.len() <= 8 && all_in(letters, Class::Alpha) && 1 <= digits.len()
            <= 6 && all_in(digits, Class::Digit),
        None => false,
    }
}

/// Each word that passes, once, in the order met.
pub open spec fn ids_among(ws: Seq<Seq<char>>) -> Seq<Seq<char>>
    decreases ws.len(),
{
    if ws.len() == 0 {
        Seq::empty()
    } else {
        let before = ids_among(ws.drop_last());
        let w = ws.last();
        if is_ticket(w) && !before.contains(upper_all(w)) {
            before.push(upper_all(w))
        } else {
            before
        }
    }
}

/// Ticket ids in a line (`ACME-7310`, `ops-512`), upper-cased, each once.
pub open spec fn ticket_ids_in(s: Seq<char>) -> Seq<Seq<char>> {
    ids_among(split_class(s, Class::NotIdChar))
}

fn holds_text(v: &Vec<Vec<char>>, x: &Vec<char>) -> (r: bool)
    ensures
        r == views(v@).contains(x@),
{
    for i in 0..v.len()
        invariant
            forall|j: int| 0 <= j < i ==> views(v@)[j] != x@,
    {
        assert(views(v@)[i as int] == v@[i as int]@);
        if crate::text::same(&v[i], x) {
            assert(views(v@)[i as int] == x@);
            return true;
        }
    }
    false
}

fn ticket(w: &Vec<char>) -> (r: bool)
    ensures
        r == is_ticket(w@),
{
    match crate::text::split_once_at(w, "-") {
        Some((letters, digits)) => 2 <= letters.len() && letters.len() <= 8 && crate::text::all_of(
            &letters,
            Class::Alpha,
        ) && 1 <= digits.len() && digits.len() <= 6 && crate::text::all_of(&digits, Class::Digit),
        None => false,
    }
}

fn ticket_chars(s: &Vec<char>) -> (r: Vec<Vec<char>>)
    ensures
        views(r@) == ticket_ids_in(s@),
{
    let ws = split_by(s, Class::NotIdChar);
    let ghost all = views(ws@);
    let mut out: Vec<Vec<char>> = Vec::new();
    for i in 0..ws.len()
        invariant
            all == views(ws@),
            views(out@) == ids_among(all.take(i as int)),
    {
        assert(all.take(i + 1).drop_last() =~= all.take(i as int));
        assert(all[i as int] == ws@[i as int]@);
        if ticket(&ws[i]) {
            let id = upper_text(&ws[i]);
            if !holds_text(&out, &id) {
                let ghost before = views(out@);
                out.push(id);
                assert(views(out@) =~= before.push(upper_all(all[i as int])));
            }
        }
    }
    assert(all.take(ws.len() as int) =~= all);
    out
}

/// Ticket ids in a line: two to eight letters, a dash, up to six digits;
/// upper-cased, each once.
pub fn ticket_ids(text: &str) -> (r: Vec<String>)
    ensures
        strings(r@) == ticket_ids_in(text@),
{
    let s = chars_of(text);
    let t = ticket_chars(&s);
    as_strings(&t)
}

/// The runs of five to eight digits, each once.
pub open spec fn numbers_among(ws: Seq<Seq<char>>) -> Seq<Seq<char>>
    decreases ws.len(),
{
    if ws.len() == 0 {
        Seq::empty()
    } else {
        let before = numbers_among(ws.drop_last());
        let w = ws.last();
        if 5 <= w.len() <= 8 && !before.contains(w) {
            before.push(w)
        } else {
            before
        }
    }
}

/// Customer case numbers in a line: runs of five to eight digits.
pub open spec fn customer_numbers_in(s: Seq<char>) -> Seq<Seq<char>> {
    numbers_among(split_class(s, Class::NotDigit))
}

fn number_chars(s: &Vec<char>) -> (r: Vec<Vec<char>>)
    ensures
        views(r@) == customer_numbers_in(s@),
{
    let ws = split_by(s, Class::NotDigit);
    let ghost all = views(ws@);
    let mut out: Vec<Vec<char>> = Vec::new();
    for i in 0..ws.len()
        invariant
            all == views(ws@),
            views(out@) == numbers_among(all.take(i as int)),
    {
        assert(all.take(i + 1).drop_last() =~= all.take(i as int));
        assert(all[i as int] == ws@[i as int]@);
        let w = &ws[i];
        if 5 <= w.len() && w.len() <= 8 && !holds_text(&out, w) {
            let ghost before = views(out@);
            out.push(crate::text::slice(w, 0, w.len()));
            assert(w@.subrange(0, w@.len() as int) =~= w@);
            assert(views(out@) =~= before.push(all[i as int]));
        }
    }
    assert(all.take(ws.len() as int) =~= all);
    out
}

/// Long numbers are, as a rule, customer case numbers: five to eight
/// digits, each once.
pub fn customer_numbers(text: &str) -> (r: Vec<String>)
    ensures
        strings(r@) == customer_numbers_in(text@),
{
    let s = chars_of(text);
    let t = number_chars(&s);
    as_strings(&t)
}

/// A word with what is not an ASCII letter or digit taken off both ends.
pub open spec fn bare(w: Seq<char>, cl: Class) -> Seq<char> {
    drop_tail(drop_lead(w, cl), cl)
}

/// The words of a line that are neither one of its ids nor one of its
/// numbers, each followed by a space.
pub open spec fn rest_of(ws: Seq<Seq<char>>, ids: Seq<Seq<char>>, numbers: Seq<Seq<char>>) -> Seq<char>
    decreases ws.len(),
{
    if ws.len() == 0 {
        Seq::empty()
    } else {
        let w = ws.last();
        let before = rest_of(ws.drop_last(), ids, numbers);
        if ids.contains(bare(upper_all(w), Class::NotAlnum)) || numbers.contains(bare(w, Class::NotDigit)) {
            before
        } else {
            before + w + " "@
        }
    }
}

/// The line with its white space made single spaces.
pub open spec fn flat_line(line: Seq<char>) -> Seq<char> {
    crate::text::joined(crate::text::words(line), " "@)
}

/// A line broken into its ticket ids, its customer numbers, and the rest.
pub open spec fn query_of(line: Seq<char>) -> (Seq<Seq<char>>, Seq<Seq<char>>, Seq<char>) {
    let flat = flat_line(line);
    let ids = ticket_ids_in(flat);
    let numbers = customer_numbers_in(flat);
    (ids, numbers, trim(rest_of(split_class(flat, Class::Is(' ')), ids, numbers)))
}

/// Breaks a line into ids, numbers and the text that remains.
pub fn parse(line: &str) -> (r: Query)
    ensures
        (strings(r.ids@), strings(r.numbers@), r.text@) == query_of(line@),
{
    let s = chars_of(line);
    let ws = crate::text::words_of(&s);
    let flat = crate::text::join_with(&ws, " ");
    let ids = ticket_chars(&flat);
    let numbers = number_chars(&flat);
    let pieces = split_by(&flat, Class::Is(' '));
    let ghost all = views(pieces@);
    let mut text: Vec<char> = Vec::new();
    for i in 0..pieces.len()
        invariant
            all == views(pieces@),
            text@ == rest_of(all.take(i as int), views(ids@), views(numbers@)),
    {
        assert(all.take(i + 1).drop_last() =~= all.take(i as int));
        assert(all[i as int] == pieces@[i as int]@);
        let w = &pieces[i];
        let up = upper_text(w);
        let a = dropped_lead(&up, Class::NotAlnum);
        let id = dropped_tail(&a, Class::NotAlnum);
        let b = dropped_lead(w, Class::NotDigit);
        let num = dropped_tail(&b, Class::NotDigit);
        if !(holds_text(&ids, &id) || holds_text(&numbers, &num)) {
            let ghost before = text@;
            append(&mut text, w);
            text.push(' ');
            proof {
                reveal_strlit(" ");
                assert(text@ =~= before + w@ + " "@);
            }
        }
    }
    assert(all.take(pieces.len() as int) =~= all);
    let rest = trimmed(&text);
    Query { ids: as_strings(&ids), numbers: as_strings(&numbers), text: text_of(&rest) }
}

/// The pairs of neighbouring characters in a text.
pub open spec fn bigrams(s: Seq<char>) -> Seq<(char, char)> {
    if s.len() < 2 {
        Seq::empty()
    } else {
        Seq::new((s.len() - 1) as nat, |i: int| (s[i], s[i + 1]))
    }
}

/// The first place `x` stands in `ys`.
pub open spec fn first_at<A>(ys: Seq<A>, x: A) -> Option<int>
    decreases ys.len(),
{
    if ys.len() == 0 {
        None
    } else if ys[0] == x {
        Some(0)
    } else {
        match first_at(ys.drop_first(), x) {
            Some(i) => Some(i + 1),
            None => None,
        }
    }
}

/// How many of `xs` can each be matched to a different equal item of `ys`:
/// the size of their intersection as multisets.
pub open spec fn shared<A>(xs: Seq<A>, ys: Seq<A>) -> nat
    decreases xs.len(),
{
    if xs.len() == 0 {
        0
    } else {
        match first_at(ys, xs[0]) {
            Some(i) => 1 + shared(xs.drop_first(), ys.remove(i)),
            None => shared(xs.drop_first(), ys),
        }
    }
}

pub proof fn lemma_first_at<A>(ys: Seq<A>, x: A)
    ensures
        first_at(ys, x) matches Some(i) ==> 0 <= i < ys.len() && ys[i] == x && forall|j: int| 0 <= j < i ==> ys[j] != x,
        first_at(ys, x) is None ==> forall|j: int| 0 <= j < ys.len() ==> ys[j] != x,
    decreases ys.len(),
{
    if ys.len() > 0 {
        lemma_first_at(ys.drop_first(), x);
        if ys[0] != x {
            assert forall|j: int| 0 < j < ys.len() implies ys[j] == ys.drop_first()[j - 1] by {}
        }
    }
}

fn bigrams_of(s: &Vec<char>) -> (r: Vec<(char, char)>)
    ensures
        r@ == bigrams(s@),
{
    let mut out: Vec<(char, char)> = Vec::new();
    if s.len() < 2 {
        return out;
    }
    for i in 0..s.len() - 1
        invariant
            s.len() >= 2,
            out@ == Seq::new(i as nat, |k: int| (s@[k], s@[k + 1])),
    {
        out.push((s[i], s[i + 1]));
        assert(out@ =~= Seq::new((i + 1) as nat, |k: int| (s@[k], s@[k + 1])));
    }
    out
}

fn place_of(ys: &Vec<(char, char)>, x: (char, char)) -> (r: Option<usize>)
    ensures
        r matches Some(i) ==> first_at(ys@, x) == Some(i as int),
        r is None ==> first_at(ys@, x) is None,
{
    proof {
        lemma_first_at(ys@, x);
    }
    for i in 0..ys.len()
        invariant
            forall|j: int| 0 <= j < i ==> ys@[j] != x,
            first_at(ys@, x) matches Some(k) ==> 0 <= k < ys.len() && ys@[k] == x && forall|j: int| 0 <= j < k
                ==> ys@[j] != x,
            first_at(ys@, x) is None ==> forall|j: int| 0 <= j < ys.len() ==> ys@[j] != x,
    {
        if ys[i].0 == x.0 && ys[i].1 == x.1 {
            return Some(i);
        }
    }
    None
}

/// Bigrams two normalised texts share, and how many they have between
/// them: the parts of their Dice coefficient. Both are zero when either
/// text is blank.
pub open spec fn overlap(a: Seq<char>, b: Seq<char>) -> (nat, nat) {
    if trim(a).len() == 0 || trim(b).len() == 0 {
        (0, 0)
    } else {
        (shared(bigrams(a), bigrams(b)), bigrams(a).len() + bigrams(b).len())
    }
}

pub fn bigram_overlap(a: &str, b: &str) -> (r: (usize, usize))
    requires
        a@.len() + b@.len() <= usize::MAX,
    ensures
        (r.0 as nat, r.1 as nat) == overlap(a@, b@),
{
    let sa = chars_of(a);
    let sb = chars_of(b);
    if trimmed(&sa).len() == 0 || trimmed(&sb).len() == 0 {
        return (0, 0);
    }
    let xs = bigrams_of(&sa);
    let mut ys = bigrams_of(&sb);
    let total = xs.len() + ys.len();
    let ghost all = xs@;
    let mut count: usize = 0;
    assert(all.skip(0) =~= all);
    for i in 0..xs.len()
        invariant
            all == xs@,
            count <= i,
            count + shared(all.skip(i as int), ys@) == shared(all, bigrams(b@)),
    {
        assert(all.skip(i as int).drop_first() =~= all.skip(i + 1));
        assert(all.skip(i as int)[0] == xs@[i as int]);
        match place_of(&ys, xs[i]) {
            Some(k) => {
                proof {
                    lemma_first_at(ys@, xs@[i as int]);
                }
                ys.remove(k);
                count = count + 1;
            },
            None => {},
        }
    }
    proof {
        assert(all.skip(0) =~= all);
    }
    (count, total)
}

/// A query word is found in a candidate's when one is the other or begins
/// it, either way round.
pub open spec fn near(q: Seq<char>, c: Seq<char>) -> bool {
    c == q || crate::text::starts_with(c, q) || crate::text::starts_with(q, c)
}

pub open spec fn found_among(q: Seq<char>, cs: Seq<Seq<char>>) -> bool {
    exists|j: int| 0 <= j < cs.len() && near(q, #[trigger] cs[j])
}

/// How many query words are found among the candidate's.
pub open spec fn found_count(qs: Seq<Seq<char>>, cs: Seq<Seq<char>>) -> nat
    decreases qs.len(),
{
    if qs.len() == 0 {
        0
    } else {
        found_count(qs.drop_last(), cs) + if found_among(qs.last(), cs) {
            1nat
        } else {
            0nat
        }
    }
}

fn is_near(q: &Vec<char>, c: &Vec<char>) -> (r: bool)
    ensures
        r == near(q@, c@),
{
    crate::text::same(c, q) || crate::text::starts(c, q) || crate::text::starts(q, c)
}

/// How many of the query's words are found in the candidate's, by prefix
/// either way: the numerator of the share `containment` takes.
pub fn containment_hits(query: &[String], candidate: &[String]) -> (r: usize)
    ensures
        r == found_count(strings(query@), strings(candidate@)),
{
    let ghost qs = strings(query@);
    let ghost cs = strings(candidate@);
    let mut count: usize = 0;
    for i in 0..query.len()
        invariant
            qs == strings(query@),
            cs == strings(candidate@),
            count == found_count(qs.take(i as int), cs),
            count <= i,
    {
        assert(qs.take(i + 1).drop_last() =~= qs.take(i as int));
        assert(qs[i as int] == query@[i as int]@);
        let q = chars_of_string(&query[i]);
        let mut found = false;
        for j in 0..candidate.len()
            invariant
                cs == strings(candidate@),
                q@ == qs[i as int],
                found == exists|k: int| 0 <= k < j && near(q@, #[trigger] cs[k]),
        {
            assert(cs[j as int] == candidate@[j as int]@);
            let c = chars_of_string(&candidate[j]);
            if is_near(&q, &c) {
                found = true;
            }
        }
        if found {
            count = count + 1;
        }
    }
    assert(qs.take(query.len() as int) =~= qs);
    count
}

/// What one text list gives, put end to end.
pub open spec fn gathered(ts: Seq<Seq<char>>, f: spec_fn(Seq<char>) -> Seq<Seq<char>>) -> Seq<Seq<char>>
    decreases ts.len(),
{
    if ts.len() == 0 {
        Seq::empty()
    } else {
        gathered(ts.drop_last(), f) + f(ts.last())
    }
}

pub open spec fn ids_of() -> spec_fn(Seq<char>) -> Seq<Seq<char>> {
    |t: Seq<char>| ticket_ids_in(t)
}

pub open spec fn numbers_of() -> spec_fn(Seq<char>) -> Seq<Seq<char>> {
    |t: Seq<char>| customer_numbers_in(t)
}

/// The ids a card answers to: those in its key, then those in each alias.
pub fn card_ids(card: &Card) -> (r: Vec<String>)
    ensures
        strings(r@) == ticket_ids_in(card.key@) + gathered(strings(card.aliases@), ids_of()),
{
    let k = chars_of_string(&card.key);
    let mut out = ticket_chars(&k);
    let ghost first = views(out@);
    let ghost al = strings(card.aliases@);
    for i in 0..card.aliases.len()
        invariant
            al == strings(card.aliases@),
            views(out@) == first + gathered(al.take(i as int), ids_of()),
    {
        assert(al.take(i + 1).drop_last() =~= al.take(i as int));
        assert(al[i as int] == card.aliases@[i as int]@);
        let a = chars_of_string(&card.aliases[i]);
        let more = ticket_chars(&a);
        let ghost before = views(out@);
        for j in 0..more.len()
            invariant
                views(out@) == before + views(more@).take(j as int),
        {
            let ghost b = views(out@);
            out.push(crate::text::slice(&more[j], 0, more[j].len()));
            assert(more@[j as int]@.subrange(0, more@[j as int]@.len() as int) =~= more@[j as int]@);
            assert(views(out@) =~= b.push(more@[j as int]@));
            assert(views(more@).take(j + 1) =~= views(more@).take(j as int).push(more@[j as int]@));
        }
        assert(views(more@).take(more.len() as int) =~= views(more@));
        assert(views(out@) =~= first + gathered(al.take(i + 1), ids_of()));
    }
    assert(al.take(card.aliases.len() as int) =~= al);
    as_strings(&out)
}

/// The case numbers a card carries: those in its title, then those in each
/// alias.
pub fn card_numbers(card: &Card) -> (r: Vec<String>)
    ensures
        strings(r@) == customer_numbers_in(card.title@) + gathered(strings(card.aliases@), numbers_of()),
{
    let k = chars_of_string(&card.title);
    let mut out = number_chars(&k);
    let ghost first = views(out@);
    let ghost al = strings(card.aliases@);
    for i in 0..card.aliases.len()
        invariant
            al == strings(card.aliases@),
            views(out@) == first + gathered(al.take(i as int), numbers_of()),
    {
        assert(al.take(i + 1).drop_last() =~= al.take(i as int));
        assert(al[i as int] == card.aliases@[i as int]@);
        let a = chars_of_string(&card.aliases[i]);
        let more = number_chars(&a);
        let ghost before = views(out@);
        for j in 0..more.len()
            invariant
                views(out@) == before + views(more@).take(j as int),
        {
            let ghost b = views(out@);
            out.push(crate::text::slice(&more[j], 0, more[j].len()));
            assert(more@[j as int]@.subrange(0, more@[j as int]@.len() as int) =~= more@[j as int]@);
            assert(views(out@) =~= b.push(more@[j as int]@));
            assert(views(more@).take(j + 1) =~= views(more@).take(j as int).push(more@[j as int]@));
        }
        assert(views(more@).take(more.len() as int) =~= views(more@));
        assert(views(out@) =~= first + gathered(al.take(i + 1), numbers_of()));
    }
    assert(al.take(card.aliases.len() as int) =~= al);
    as_strings(&out)
}

/// Best first: the higher score, then the key by name.
pub open spec fn hit_before(a: Hit, b: Hit) -> bool {
    a.score > b.score || (a.score == b.score && crate::order::text_order(a.key@, b.key@) < 0)
}

pub open spec fn hit_order() -> spec_fn(Hit, Hit) -> bool {
    |a: Hit, b: Hit| hit_before(a, b)
}

fn hit_comes_before(a: &Hit, b: &Hit) -> (r: bool)
    ensures
        r == hit_before(*a, *b),
{
    if a.score != b.score {
        return a.score > b.score;
    }
    crate::order::compare_strings(&a.key, &b.key) < 0
}

/// How many candidates could be it: those scoring 60 or more.
pub open spec fn contenders(hs: Seq<Hit>) -> nat
    decreases hs.len(),
{
    if hs.len() == 0 {
        0
    } else {
        contenders(hs.drop_last()) + if hs.last().score >= 60 {
            1nat
        } else {
            0nat
        }
    }
}

/// What to do with the candidates, best first: take a certain match, or a
/// close one that has no rival; ask about a middling one or several
/// contenders; otherwise the task is new.
pub open spec fn verdict_for(hs: Seq<Hit>) -> Verdict {
    if hs.len() == 0 {
        Verdict::New
    } else if hs[0].score >= 100 {
        Verdict::Take
    } else if hs[0].score >= 85 && contenders(hs) == 1 {
        Verdict::Take
    } else if hs[0].score >= 40 {
        Verdict::Ask
    } else if contenders(hs) > 1 {
        Verdict::Ask
    } else {
        Verdict::New
    }
}

/// The scored candidates, best first and at most `top` of them, and what
/// to do with them.
pub fn rank(hits: Vec<Hit>, top: usize) -> (r: (Vec<Hit>, Verdict))
    ensures
        ({
            let sorted = crate::order::stable_sort(hits@, hit_order());
            let kept = if top < sorted.len() {
                sorted.take(top as int)
            } else {
                sorted
            };
            r.0@ == kept && r.1 == verdict_for(kept)
        }),
{
    proof {
        assert forall|a: &Hit, b: &Hit, r: bool| call_ensures(hit_comes_before, (a, b), r) implies r == (hit_order())(*a, *b) by {}
    }
    let ghost all = hits@;
    let mut sorted = crate::order::sorted_by(hits, &hit_comes_before, Ghost(hit_order()));
    let ghost full = sorted@;
    sorted.truncate(top);
    assert(sorted@ == (if top < full.len() {
        full.take(top as int)
    } else {
        full
    }));
    let mut count: usize = 0;
    for i in 0..sorted.len()
        invariant
            count == contenders(sorted@.take(i as int)),
            count <= i,
    {
        assert(sorted@.take(i + 1).drop_last() =~= sorted@.take(i as int));
        if sorted[i].score >= 60 {
            count = count + 1;
        }
    }
    assert(sorted@.take(sorted.len() as int) =~= sorted@);
    let verdict = if sorted.len() == 0 {
        Verdict::New
    } else if sorted[0].score >= 100 {
        Verdict::Take
    } else if sorted[0].score >= 85 && count == 1 {
        Verdict::Take
    } else if sorted[0].score >= 40 {
        Verdict::Ask
    } else if count > 1 {
        Verdict::Ask
    } else {
        Verdict::New
    };
    (sorted, verdict)
}

/// The candidates come best first: none is listed after one with a higher
/// score, or an equal score and a key that sorts first.
pub proof fn law_rank_best_first(hits: Seq<Hit>)
    ensures
        crate::order::in_order(crate::order::stable_sort(hits, hit_order()), hit_order()),
        crate::order::stable_sort(hits, hit_order()).to_multiset() == hits.to_multiset(),
{
    assert forall|a: Hit| !#[trigger] (hit_order())(a, a) by {
        crate::order::lemma_text_order(a.key@, a.key@, a.key@);
    }
    assert forall|a: Hit, b: Hit, c: Hit| #[trigger] (hit_order())(a, b) && #[trigger] (hit_order())(b, c) implies (
    hit_order())(a, c) by {
        crate::order::lemma_text_order(a.key@, b.key@, c.key@);
    }
    crate::order::law_sorted_is_in_order(hits, hit_order());
}

} // verus!
