//! Text as a sequence of characters: the trimming, splitting and matching
//! that every reader of a hub, a commit message or a ticket line needs.
use vstd::prelude::*;

verus! {

/// Whether `char::is_alphanumeric` holds of a character.
pub uninterp spec fn alphanumeric(c: char) -> bool;

/// `char::is_alphanumeric`: whether the character is alphabetic or
/// numeric, which a space is not.
#[verifier::external_body]
pub(crate) fn is_alphanumeric(c: char) -> (r: bool)
    ensures
        r == alphanumeric(c),
        c == ' ' ==> !r,
{
    c.is_alphanumeric()
}

/// The characters Unicode gives the White_Space property.
pub open spec fn is_space(c: char) -> bool {
    ||| ('\t' <= c && c <= '\r')
    ||| c == ' '
    ||| c == '\u{85}'
    ||| c == '\u{a0}'
    ||| c == '\u{1680}'
    ||| ('\u{2000}' <= c && c <= '\u{200a}')
    ||| c == '\u{2028}'
    ||| c == '\u{2029}'
    ||| c == '\u{202f}'
    ||| c == '\u{205f}'
    ||| c == '\u{3000}'
}

/// Whether a character is white space, as `char::is_whitespace` says.
pub fn space(c: char) -> (b: bool)
    ensures
        b == is_space(c),
{
    ('\t' <= c && c <= '\r') || c == ' ' || c == '\u{85}' || c == '\u{a0}' || c == '\u{1680}'
        || ('\u{2000}' <= c && c <= '\u{200a}') || c == '\u{2028}' || c == '\u{2029}'
        || c == '\u{202f}' || c == '\u{205f}' || c == '\u{3000}'
}

pub open spec fn is_digit(c: char) -> bool {
    '0' <= c && c <= '9'
}

pub open spec fn is_upper(c: char) -> bool {
    'A' <= c && c <= 'Z'
}

pub open spec fn is_lower(c: char) -> bool {
    'a' <= c && c <= 'z'
}

pub open spec fn is_alpha(c: char) -> bool {
    is_upper(c) || is_lower(c)
}

pub open spec fn is_alnum(c: char) -> bool {
    is_alpha(c) || is_digit(c)
}

pub open spec fn is_hex(c: char) -> bool {
    is_digit(c) || ('a' <= c && c <= 'f') || ('A' <= c && c <= 'F')
}

pub fn digit(c: char) -> (b: bool)
    ensures
        b == is_digit(c),
{
    '0' <= c && c <= '9'
}

pub fn alpha(c: char) -> (b: bool)
    ensures
        b == is_alpha(c),
{
    ('A' <= c && c <= 'Z') || ('a' <= c && c <= 'z')
}

pub fn alnum(c: char) -> (b: bool)
    ensures
        b == is_alnum(c),
{
    ('A' <= c && c <= 'Z') || ('a' <= c && c <= 'z') || ('0' <= c && c <= '9')
}

pub fn hex(c: char) -> (b: bool)
    ensures
        b == is_hex(c),
{
    ('0' <= c && c <= '9') || ('a' <= c && c <= 'f') || ('A' <= c && c <= 'F')
}

/// `char::to_ascii_uppercase`.
pub open spec fn upper(c: char) -> char {
    if is_lower(c) {
        ((c as u32) - 32) as char
    } else {
        c
    }
}

/// `char::to_ascii_lowercase`.
pub open spec fn lower(c: char) -> char {
    if is_upper(c) {
        ((c as u32) + 32) as char
    } else {
        c
    }
}

pub fn to_upper(c: char) -> (r: char)
    ensures
        r == upper(c),
{
    if 'a' <= c && c <= 'z' {
        let n: u32 = (c as u32) - 32;
        assert(n < 0xD800);
        char_from(n)
    } else {
        c
    }
}

pub fn to_lower(c: char) -> (r: char)
    ensures
        r == lower(c),
{
    if 'A' <= c && c <= 'Z' {
        let n: u32 = (c as u32) + 32;
        assert(n < 0xD800);
        char_from(n)
    } else {
        c
    }
}

/// A code point below the surrogates, as the character it is.
fn char_from(n: u32) -> (c: char)
    requires
        n < 0xD800,
    ensures
        c == n as char,
{
    let b: u8 = n as u8;
    if n < 128 {
        b as char
    } else {
        char_of_code(n)
    }
}

/// `char::from_u32` on a code point that is known to be a character.
#[verifier::external_body]
fn char_of_code(n: u32) -> (c: char)
    requires
        n < 0xD800,
    ensures
        c == n as char,
{
    char::from_u32(n).unwrap_or('\u{fffd}')
}

/// Every character of a sequence is upper-cased the ASCII way.
pub open spec fn upper_all(s: Seq<char>) -> Seq<char> {
    s.map_values(|c: char| upper(c))
}

pub open spec fn lower_all(s: Seq<char>) -> Seq<char> {
    s.map_values(|c: char| lower(c))
}

pub fn upper_text(s: &Vec<char>) -> (r: Vec<char>)
    ensures
        r@ == upper_all(s@),
{
    let mut out: Vec<char> = Vec::new();
    for i in 0..s.len()
        invariant
            out@ == upper_all(s@.take(i as int)),
    {
        out.push(to_upper(s[i]));
        assert(upper_all(s@.take(i + 1)) =~= upper_all(s@.take(i as int)).push(upper(s@[i as int])));
    }
    assert(s@.take(s.len() as int) =~= s@);
    out
}

pub fn lower_text(s: &Vec<char>) -> (r: Vec<char>)
    ensures
        r@ == lower_all(s@),
{
    let mut out: Vec<char> = Vec::new();
    for i in 0..s.len()
        invariant
            out@ == lower_all(s@.take(i as int)),
    {
        out.push(to_lower(s[i]));
        assert(lower_all(s@.take(i + 1)) =~= lower_all(s@.take(i as int)).push(lower(s@[i as int])));
    }
    assert(s@.take(s.len() as int) =~= s@);
    out
}

/// The characters of a string slice, in order.
pub fn chars_of(s: &str) -> (r: Vec<char>)
    ensures
        r@ == s@,
{
    let mut out: Vec<char> = Vec::new();
    for c in it: s.chars()
        invariant
            out@ == it.seq().take(it.index() as int),
    {
        out.push(c);
    }
    out
}

/// The characters of a string.
pub fn chars_of_string(s: &String) -> (r: Vec<char>)
    ensures
        r@ == s@,
{
    chars_of(s.as_str())
}

/// The characters as a string (`FromIterator<char> for String`).
#[verifier::external_body]
pub(crate) fn text_of(v: &Vec<char>) -> (r: String)
    ensures
        r@ == v@,
{
    v.iter().collect()
}

/// A copy of the characters from `a` to `b`.
pub fn slice(s: &Vec<char>, a: usize, b: usize) -> (r: Vec<char>)
    requires
        a <= b <= s.len(),
    ensures
        r@ == s@.subrange(a as int, b as int),
{
    let mut out: Vec<char> = Vec::new();
    let mut i = a;
    while i < b
        invariant
            a <= i <= b <= s.len(),
            out@ == s@.subrange(a as int, i as int),
        decreases b - i,
    {
        out.push(s[i]);
        assert(s@.subrange(a as int, i + 1) =~= s@.subrange(a as int, i as int).push(s@[i as int]));
        i = i + 1;
    }
    out
}

/// Appends the characters of `t` to `out`.
pub fn append(out: &mut Vec<char>, t: &Vec<char>)
    ensures
        final(out)@ == old(out)@ + t@,
{
    let ghost start = out@;
    for i in 0..t.len()
        invariant
            out@ == start + t@.take(i as int),
    {
        out.push(t[i]);
        assert(start + t@.take(i + 1) =~= (start + t@.take(i as int)).push(t@[i as int]));
    }
    assert(t@.take(t.len() as int) =~= t@);
}

/// Appends the characters of a string slice.
pub fn append_str(out: &mut Vec<char>, t: &str)
    ensures
        final(out)@ == old(out)@ + t@,
{
    let v = chars_of(t);
    append(out, &v);
}

/// Drops white space from the front.
pub open spec fn trim_start(s: Seq<char>) -> Seq<char>
    decreases s.len(),
{
    if s.len() > 0 && is_space(s[0]) {
        trim_start(s.drop_first())
    } else {
        s
    }
}

/// Drops white space from the back.
pub open spec fn trim_end(s: Seq<char>) -> Seq<char>
    decreases s.len(),
{
    if s.len() > 0 && is_space(s.last()) {
        trim_end(s.drop_last())
    } else {
        s
    }
}

/// `str::trim`.
pub open spec fn trim(s: Seq<char>) -> Seq<char> {
    trim_end(trim_start(s))
}

pub proof fn lemma_trim_start(s: Seq<char>, k: int)
    requires
        0 <= k <= s.len(),
        forall|j: int| 0 <= j < k ==> is_space(#[trigger] s[j]),
        k == s.len() || !is_space(s[k]),
    ensures
        trim_start(s) == s.skip(k),
    decreases k,
{
    if k == 0 {
        assert(s.skip(0) =~= s);
    } else {
        let t = s.drop_first();
        assert forall|j: int| 0 <= j < k - 1 implies is_space(#[trigger] t[j]) by {
            assert(t[j] == s[j + 1]);
        }
        lemma_trim_start(t, k - 1);
        assert(t.skip(k - 1) =~= s.skip(k));
    }
}

pub proof fn lemma_trim_end(s: Seq<char>, m: int)
    requires
        0 <= m <= s.len(),
        forall|j: int| m <= j < s.len() ==> is_space(#[trigger] s[j]),
        m == 0 || !is_space(s[m - 1]),
    ensures
        trim_end(s) == s.take(m),
    decreases s.len() - m,
{
    if m == s.len() {
        assert(s.take(m) =~= s);
    } else {
        let t = s.drop_last();
        assert forall|j: int| m <= j < t.len() implies is_space(#[trigger] t[j]) by {
            assert(t[j] == s[j]);
        }
        lemma_trim_end(t, m);
        assert(t.take(m) =~= s.take(m));
    }
}

/// Where the text starts and ends once white space is dropped on both sides.
pub fn trim_bounds(s: &Vec<char>) -> (r: (usize, usize))
    ensures
        r.0 <= r.1 <= s.len(),
        trim(s@) == s@.subrange(r.0 as int, r.1 as int),
        trim_start(s@) == s@.skip(r.0 as int),
        trim_end(s@) == s@.take(r.1 as int) || r.0 == r.1,
{
    let n = s.len();
    let mut a: usize = 0;
    while a < n && space(s[a])
        invariant
            a <= n == s.len(),
            forall|j: int| 0 <= j < a ==> is_space(#[trigger] s@[j]),
        decreases n - a,
    {
        a = a + 1;
    }
    proof {
        lemma_trim_start(s@, a as int);
    }
    let mut b: usize = n;
    while b > a && space(s[b - 1])
        invariant
            a <= b <= n == s.len(),
            forall|j: int| b <= j < n ==> is_space(#[trigger] s@[j]),
        decreases b,
    {
        b = b - 1;
    }
    proof {
        let t = s@.skip(a as int);
        let m = (b - a) as int;
        assert forall|j: int| m <= j < t.len() implies is_space(#[trigger] t[j]) by {
            assert(t[j] == s@[j + a]);
        }
        if m > 0 {
            assert(t[m - 1] == s@[b - 1]);
        }
        lemma_trim_end(t, m);
        assert(t.take(m) =~= s@.subrange(a as int, b as int));
        if a < b {
            assert(!is_space(s@[b - 1]));
            lemma_trim_end(s@, b as int);
        }
    }
    (a, b)
}

/// `str::trim`.
pub fn trimmed(s: &Vec<char>) -> (r: Vec<char>)
    ensures
        r@ == trim(s@),
{
    let (a, b) = trim_bounds(s);
    slice(s, a, b)
}

/// `str::trim_start`.
pub fn trimmed_start(s: &Vec<char>) -> (r: Vec<char>)
    ensures
        r@ == trim_start(s@),
{
    let (a, b) = trim_bounds(s);
    slice(s, a, s.len())
}

/// `str::trim_end`.
pub fn trimmed_end(s: &Vec<char>) -> (r: Vec<char>)
    ensures
        r@ == trim_end(s@),
{
    let n = s.len();
    let mut b: usize = n;
    while b > 0 && space(s[b - 1])
        invariant
            b <= n == s.len(),
            forall|j: int| b <= j < n ==> is_space(#[trigger] s@[j]),
        decreases b,
    {
        b = b - 1;
    }
    proof {
        lemma_trim_end(s@, b as int);
    }
    slice(s, 0, b)
}

/// Whether `p` stands at position `i` of `s`.
pub open spec fn occurs_at(s: Seq<char>, p: Seq<char>, i: int) -> bool {
    0 <= i && i + p.len() <= s.len() && s.subrange(i, i + p.len()) == p
}

/// `str::starts_with`.
pub open spec fn starts_with(s: Seq<char>, p: Seq<char>) -> bool {
    p.len() <= s.len() && s.take(p.len() as int) == p
}

/// `str::ends_with`.
pub open spec fn ends_with(s: Seq<char>, p: Seq<char>) -> bool {
    p.len() <= s.len() && s.skip(s.len() - p.len()) == p
}

/// Whether `p` is found anywhere in `s`.
pub open spec fn contains(s: Seq<char>, p: Seq<char>) -> bool {
    exists|i: int| occurs_at(s, p, i)
}

/// The first place `p` stands in `s` (`str::find`).
#[verifier::opaque]
pub open spec fn find(s: Seq<char>, p: Seq<char>) -> Option<int> {
    if contains(s, p) {
        Some(
            choose|i: int|
                occurs_at(s, p, i) && forall|j: int| 0 <= j < i ==> !occurs_at(s, p, j),
        )
    } else {
        None
    }
}

/// The last place `p` stands in `s` (`str::rfind`).
#[verifier::opaque]
pub open spec fn rfind(s: Seq<char>, p: Seq<char>) -> Option<int> {
    if contains(s, p) {
        Some(
            choose|i: int|
                occurs_at(s, p, i) && forall|j: int| i < j ==> !occurs_at(s, p, j),
        )
    } else {
        None
    }
}

pub fn is_at(s: &Vec<char>, p: &Vec<char>, i: usize) -> (b: bool)
    ensures
        b == occurs_at(s@, p@, i as int),
{
    if i > s.len() || p.len() > s.len() - i {
        return false;
    }
    let mut k: usize = 0;
    while k < p.len()
        invariant
            i + p.len() <= s.len(),
            k <= p.len(),
            forall|j: int| 0 <= j < k ==> s@[i + j] == p@[j],
        decreases p.len() - k,
    {
        if s[i + k] != p[k] {
            assert(s@.subrange(i as int, i + p.len())[k as int] != p@[k as int]);
            return false;
        }
        k = k + 1;
    }
    assert(s@.subrange(i as int, i + p.len()) =~= p@);
    true
}

pub fn starts(s: &Vec<char>, p: &Vec<char>) -> (b: bool)
    ensures
        b == starts_with(s@, p@),
{
    let b = is_at(s, p, 0);
    assert(p@.len() <= s@.len() ==> s@.subrange(0, p@.len() as int) =~= s@.take(p@.len() as int));
    b
}

pub fn ends(s: &Vec<char>, p: &Vec<char>) -> (b: bool)
    ensures
        b == ends_with(s@, p@),
{
    if p.len() > s.len() {
        return false;
    }
    let b = is_at(s, p, s.len() - p.len());
    assert(s@.subrange(s.len() - p.len(), s.len() as int) =~= s@.skip(s.len() - p.len()));
    b
}

pub fn starts_str(s: &Vec<char>, p: &str) -> (b: bool)
    ensures
        b == starts_with(s@, p@),
{
    let v = chars_of(p);
    starts(s, &v)
}

/// `str::find`.
pub fn find_in(s: &Vec<char>, p: &Vec<char>) -> (r: Option<usize>)
    ensures
        r matches Some(i) ==> find(s@, p@) == Some(i as int),
        r matches Some(i) ==> occurs_at(s@, p@, i as int),
        r is None ==> find(s@, p@) is None,
{
    reveal(find);
    let mut i: usize = 0;
    loop
        invariant
            i <= s.len(),
            forall|j: int| 0 <= j < i ==> !occurs_at(s@, p@, j),
        ensures
            forall|j: int| 0 <= j <= s.len() ==> !occurs_at(s@, p@, j),
        decreases s.len() - i,
    {
        if is_at(s, p, i) {
            proof {
                reveal(find);
                let c = choose|k: int|
                    occurs_at(s@, p@, k) && forall|j: int| 0 <= j < k ==> !occurs_at(s@, p@, j);
                assert(occurs_at(s@, p@, i as int));
                assert(occurs_at(s@, p@, c));
                assert(c == i);
            }
            return Some(i);
        }
        if i == s.len() {
            break;
        }
        i = i + 1;
    }
    assert forall|k: int| !occurs_at(s@, p@, k) by {
        if 0 <= k <= s.len() {
        }
    }
    None
}

pub fn find_str(s: &Vec<char>, p: &str) -> (r: Option<usize>)
    ensures
        r matches Some(i) ==> find(s@, p@) == Some(i as int),
        r matches Some(i) ==> occurs_at(s@, p@, i as int),
        r is None ==> find(s@, p@) is None,
{
    let v = chars_of(p);
    find_in(s, &v)
}

/// `str::rfind`.
pub fn rfind_in(s: &Vec<char>, p: &Vec<char>) -> (r: Option<usize>)
    ensures
        r matches Some(i) ==> rfind(s@, p@) == Some(i as int),
        r matches Some(i) ==> occurs_at(s@, p@, i as int),
        r is None ==> rfind(s@, p@) is None,
{
    reveal(rfind);
    let mut i: usize = s.len();
    loop
        invariant
            i <= s.len(),
            forall|j: int| i < j ==> !occurs_at(s@, p@, j),
        ensures
            forall|j: int| 0 <= j ==> !occurs_at(s@, p@, j),
        decreases i,
    {
        if is_at(s, p, i) {
            proof {
                reveal(rfind);
                let c = choose|k: int|
                    occurs_at(s@, p@, k) && forall|j: int| k < j ==> !occurs_at(s@, p@, j);
                assert(occurs_at(s@, p@, i as int));
                assert(occurs_at(s@, p@, c));
                assert(c == i);
            }
            return Some(i);
        }
        if i == 0 {
            break;
        }
        i = i - 1;
    }
    assert forall|k: int| !occurs_at(s@, p@, k) by {
        if 0 <= k {
        }
    }
    None
}

/// The number of times `p` occurs in `s` without overlapping, counted from
/// the front (`str::matches(..).count()`), for a single character.
pub open spec fn count_char(s: Seq<char>, c: char) -> nat
    decreases s.len(),
{
    if s.len() == 0 {
        0
    } else {
        count_char(s.drop_last(), c) + if s.last() == c {
            1nat
        } else {
            0nat
        }
    }
}

pub fn count_of(s: &Vec<char>, c: char) -> (n: usize)
    ensures
        n == count_char(s@, c),
{
    let mut n: usize = 0;
    for i in 0..s.len()
        invariant
            n == count_char(s@.take(i as int), c),
            n <= i,
    {
        assert(s@.take(i + 1).drop_last() =~= s@.take(i as int));
        if s[i] == c {
            n = n + 1;
        }
    }
    assert(s@.take(s.len() as int) =~= s@);
    n
}

/// Splitting into lines: the state after reading a prefix, lines done and
/// the line being read.
pub open spec fn line_step(st: (Seq<Seq<char>>, Seq<char>), c: char) -> (Seq<Seq<char>>, Seq<char>) {
    if c == '\n' {
        (st.0.push(strip_cr(st.1)), Seq::empty())
    } else {
        (st.0, st.1.push(c))
    }
}

/// A line that ended in a carriage return before its newline loses it.
pub open spec fn strip_cr(s: Seq<char>) -> Seq<char> {
    if s.len() > 0 && s.last() == '\r' {
        s.drop_last()
    } else {
        s
    }
}

/// The characters of each of a list of lines.
pub open spec fn views(v: Seq<Vec<char>>) -> Seq<Seq<char>> {
    v.map_values(|l: Vec<char>| l@)
}

/// The characters of each of a list of strings.
pub open spec fn strings(v: Seq<String>) -> Seq<Seq<char>> {
    v.map_values(|l: String| l@)
}

/// An optional string as its characters.
pub open spec fn opt_chars(o: Option<String>) -> Option<Seq<char>> {
    match o {
        Some(s) => Some(s@),
        None => None,
    }
}

/// The state after reading all of `s`.
pub open spec fn line_state(s: Seq<char>) -> (Seq<Seq<char>>, Seq<char>)
    decreases s.len(),
{
    if s.len() == 0 {
        (Seq::empty(), Seq::empty())
    } else {
        line_step(line_state(s.drop_last()), s.last())
    }
}

/// `str::lines`: split at `\n` and `\r\n`, a final line ending optional.
pub open spec fn lines(s: Seq<char>) -> Seq<Seq<char>> {
    let st = line_state(s);
    if st.1.len() > 0 {
        st.0.push(st.1)
    } else {
        st.0
    }
}

/// The lines of a text.
pub fn lines_of(s: &Vec<char>) -> (r: Vec<Vec<char>>)
    ensures
        views(r@) == lines(s@),
{
    let mut done: Vec<Vec<char>> = Vec::new();
    let mut cur: Vec<char> = Vec::new();
    for i in 0..s.len()
        invariant
            (views(done@), cur@) == line_state(s@.take(i as int)),
    {
        assert(s@.take(i + 1).drop_last() =~= s@.take(i as int));
        let c = s[i];
        if c == '\n' {
            let ghost before = views(done@);
            let ghost was = cur@;
            let n = cur.len();
            if n > 0 && cur[n - 1] == '\r' {
                cur.pop();
            }
            assert(cur@ == strip_cr(was));
            let line = cur;
            done.push(line);
            cur = Vec::new();
            assert(views(done@) =~= before.push(strip_cr(was)));
        } else {
            cur.push(c);
        }
    }
    assert(s@.take(s.len() as int) =~= s@);
    if cur.len() > 0 {
        let ghost before = views(done@);
        let ghost was = cur@;
        done.push(cur);
        assert(views(done@) =~= before.push(was));
    }
    done
}


/// The sets of characters text is cut at or trimmed by.
#[derive(Clone, Copy)]
pub enum Class {
    /// One character.
    Is(char),
    /// White space.
    Space,
    /// White space or an asterisk.
    SpaceOrStar,
    /// Anything that cannot be part of a date: not a digit, `-` or `.`.
    NotDate,
    /// A dash or a dot.
    DashOrDot,
    /// An ASCII digit.
    Digit,
    /// Anything that is not an ASCII digit.
    NotDigit,
    /// Anything that is not an ASCII letter, digit or dash.
    NotIdChar,
    /// Anything that is not an ASCII letter or digit.
    NotAlnum,
    /// The separators a heading puts between a version and its title.
    TitleLead,
    /// The dashes that end a title: an em dash or an en dash.
    TitleEnd,
    /// The marks that open the body of a state line.
    Dashes,
    /// What separates a decision's date from its title.
    DateTitle,
    /// Not white space.
    NotSpace,
    /// Not a dot.
    NotDot,
    /// One of two characters.
    Either(char, char),
    /// What a date is written with: a digit, `-` or `.`.
    DateChar,
    /// White space or a mark that may follow a date in a heading.
    AfterDate,
    /// An ASCII letter.
    Alpha,
    /// What marks a question before its heading: not a letter or digit,
    /// nor `*` or a backquote.
    Glyph,
    /// The marks a heading may end with.
    HeadingEnd,
    /// The marks a sentence cut may end with.
    CutEnd,
    /// The marks a subject without a sentence may end with.
    SubjectEnd,
    /// The marks a stage name may end with.
    StageEnd,
}

pub open spec fn in_class(cl: Class, c: char) -> bool {
    match cl {
        Class::Is(x) => c == x,
        Class::Space => is_space(c),
        Class::SpaceOrStar => is_space(c) || c == '*',
        Class::NotDate => !(is_digit(c) || c == '-' || c == '.'),
        Class::DashOrDot => c == '-' || c == '.',
        Class::Digit => is_digit(c),
        Class::NotDigit => !is_digit(c),
        Class::NotIdChar => !(is_alnum(c) || c == '-'),
        Class::NotAlnum => !is_alnum(c),
        Class::TitleLead => c == '·' || c == '-' || c == '—' || c == ':',
        Class::TitleEnd => c == '—' || c == '–',
        Class::Dashes => c == '—' || c == '-' || c == '–',
        Class::DateTitle => c == '·' || c == '—',
        Class::NotSpace => !is_space(c),
        Class::NotDot => c != '.',
        Class::Either(x, y) => c == x || c == y,
        Class::DateChar => is_digit(c) || c == '-' || c == '.',
        Class::AfterDate => is_space(c) || c == '·' || c == '—' || c == '-' || c == ':' || c == '–',
        Class::Alpha => is_alpha(c),
        Class::Glyph => !alphanumeric(c) && c != '*' && c != '`',
        Class::HeadingEnd => c == ':' || c == '.' || c == ',' || c == '—' || c == '-',
        Class::CutEnd => c == ':' || c == '—' || c == '-',
        Class::SubjectEnd => c == '.' || c == ':' || c == '—',
        Class::StageEnd => c == '*' || c == '—' || c == '-' || c == ',',
    }
}

pub fn member(cl: Class, c: char) -> (b: bool)
    ensures
        b == in_class(cl, c),
{
    match cl {
        Class::Is(x) => c == x,
        Class::Space => space(c),
        Class::SpaceOrStar => space(c) || c == '*',
        Class::NotDate => !(digit(c) || c == '-' || c == '.'),
        Class::DashOrDot => c == '-' || c == '.',
        Class::Digit => digit(c),
        Class::NotDigit => !digit(c),
        Class::NotIdChar => !(alnum(c) || c == '-'),
        Class::NotAlnum => !alnum(c),
        Class::TitleLead => c == '·' || c == '-' || c == '—' || c == ':',
        Class::TitleEnd => c == '—' || c == '–',
        Class::Dashes => c == '—' || c == '-' || c == '–',
        Class::DateTitle => c == '·' || c == '—',
        Class::NotSpace => !space(c),
        Class::NotDot => c != '.',
        Class::Either(x, y) => c == x || c == y,
        Class::DateChar => digit(c) || c == '-' || c == '.',
        Class::AfterDate => space(c) || c == '·' || c == '—' || c == '-' || c == ':' || c == '–',
        Class::Alpha => alpha(c),
        Class::Glyph => !is_alphanumeric(c) && c != '*' && c != '`',
        Class::HeadingEnd => c == ':' || c == '.' || c == ',' || c == '—' || c == '-',
        Class::CutEnd => c == ':' || c == '—' || c == '-',
        Class::SubjectEnd => c == '.' || c == ':' || c == '—',
        Class::StageEnd => c == '*' || c == '—' || c == '-' || c == ',',
    }
}

/// Every character of `s` is in the class.
pub open spec fn all_in(s: Seq<char>, cl: Class) -> bool {
    forall|i: int| 0 <= i < s.len() ==> in_class(cl, #[trigger] s[i])
}

pub fn all_of(s: &Vec<char>, cl: Class) -> (b: bool)
    ensures
        b == all_in(s@, cl),
{
    for i in 0..s.len()
        invariant
            forall|j: int| 0 <= j < i ==> in_class(cl, #[trigger] s@[j]),
    {
        if !member(cl, s[i]) {
            return false;
        }
    }
    true
}

/// Whether any character of `s` is in the class.
pub open spec fn any_in(s: Seq<char>, cl: Class) -> bool {
    exists|i: int| 0 <= i < s.len() && in_class(cl, #[trigger] s[i])
}

pub fn any_of(s: &Vec<char>, cl: Class) -> (b: bool)
    ensures
        b == any_in(s@, cl),
{
    for i in 0..s.len()
        invariant
            forall|j: int| 0 <= j < i ==> !in_class(cl, #[trigger] s@[j]),
    {
        if member(cl, s[i]) {
            return true;
        }
    }
    false
}

/// How many characters at the front of `s` are in the class.
pub open spec fn lead(s: Seq<char>, cl: Class) -> nat
    decreases s.len(),
{
    if s.len() > 0 && in_class(cl, s[0]) {
        1 + lead(s.drop_first(), cl)
    } else {
        0
    }
}

pub proof fn lemma_lead(s: Seq<char>, cl: Class, k: int)
    requires
        0 <= k <= s.len(),
        forall|j: int| 0 <= j < k ==> in_class(cl, #[trigger] s[j]),
        k == s.len() || !in_class(cl, s[k]),
    ensures
        lead(s, cl) == k,
    decreases k,
{
    if k > 0 {
        let t = s.drop_first();
        assert forall|j: int| 0 <= j < k - 1 implies in_class(cl, #[trigger] t[j]) by {
            assert(t[j] == s[j + 1]);
        }
        lemma_lead(t, cl, k - 1);
    }
}

pub proof fn lemma_lead_bounds(s: Seq<char>, cl: Class)
    ensures
        lead(s, cl) <= s.len(),
        forall|j: int| 0 <= j < lead(s, cl) ==> in_class(cl, #[trigger] s[j]),
        lead(s, cl) == s.len() || !in_class(cl, s[lead(s, cl) as int]),
    decreases s.len(),
{
    if s.len() > 0 && in_class(cl, s[0]) {
        let t = s.drop_first();
        lemma_lead_bounds(t, cl);
        assert forall|j: int| 0 <= j < lead(s, cl) implies in_class(cl, #[trigger] s[j]) by {
            if j > 0 {
                assert(s[j] == t[j - 1]);
            }
        }
        if lead(s, cl) < s.len() {
            assert(s[lead(s, cl) as int] == t[lead(t, cl) as int]);
        }
    }
}

pub fn lead_of(s: &Vec<char>, cl: Class) -> (n: usize)
    ensures
        n == lead(s@, cl),
        n <= s.len(),
{
    let mut k: usize = 0;
    while k < s.len() && member(cl, s[k])
        invariant
            k <= s.len(),
            forall|j: int| 0 <= j < k ==> in_class(cl, #[trigger] s@[j]),
        decreases s.len() - k,
    {
        k = k + 1;
    }
    proof {
        lemma_lead(s@, cl, k as int);
    }
    k
}

/// `str::trim_start_matches` with a set of characters.
pub open spec fn drop_lead(s: Seq<char>, cl: Class) -> Seq<char> {
    s.skip(lead(s, cl) as int)
}

pub fn dropped_lead(s: &Vec<char>, cl: Class) -> (r: Vec<char>)
    ensures
        r@ == drop_lead(s@, cl),
{
    let n = lead_of(s, cl);
    slice(s, n, s.len())
}

/// `str::trim_end_matches` with a set of characters.
pub open spec fn drop_tail(s: Seq<char>, cl: Class) -> Seq<char>
    decreases s.len(),
{
    if s.len() > 0 && in_class(cl, s.last()) {
        drop_tail(s.drop_last(), cl)
    } else {
        s
    }
}

pub fn dropped_tail(s: &Vec<char>, cl: Class) -> (r: Vec<char>)
    ensures
        r@ == drop_tail(s@, cl),
{
    let mut k: usize = s.len();
    assert(s@.take(k as int) =~= s@);
    while k > 0 && member(cl, s[k - 1])
        invariant
            k <= s.len(),
            drop_tail(s@.take(k as int), cl) == drop_tail(s@, cl),
        decreases k,
    {
        assert(s@.take(k as int).drop_last() =~= s@.take(k - 1));
        k = k - 1;
    }
    slice(s, 0, k)
}

/// Splitting at every character of a class (`str::split` with a pattern),
/// as the state after reading a prefix: the pieces so far, the last one
/// still open.
pub open spec fn split_class(s: Seq<char>, cl: Class) -> Seq<Seq<char>>
    decreases s.len(),
{
    if s.len() == 0 {
        seq![Seq::empty()]
    } else {
        let init = split_class(s.drop_last(), cl);
        if in_class(cl, s.last()) {
            init.push(Seq::empty())
        } else {
            init.update(init.len() - 1, init.last().push(s.last()))
        }
    }
}

pub proof fn lemma_split_nonempty(s: Seq<char>, cl: Class)
    ensures
        split_class(s, cl).len() >= 1,
    decreases s.len(),
{
    if s.len() > 0 {
        lemma_split_nonempty(s.drop_last(), cl);
    }
}

pub fn split_by(s: &Vec<char>, cl: Class) -> (r: Vec<Vec<char>>)
    ensures
        views(r@) == split_class(s@, cl),
        r.len() >= 1,
{
    let mut done: Vec<Vec<char>> = Vec::new();
    let mut cur: Vec<char> = Vec::new();
    for i in 0..s.len()
        invariant
            views(done@).push(cur@) == split_class(s@.take(i as int), cl),
    {
        assert(s@.take(i + 1).drop_last() =~= s@.take(i as int));
        proof {
            lemma_split_nonempty(s@.take(i as int), cl);
        }
        let c = s[i];
        if member(cl, c) {
            let ghost before = views(done@);
            let piece = cur;
            let ghost p = piece@;
            done.push(piece);
            cur = Vec::new();
            assert(views(done@) =~= before.push(p));
            assert(views(done@).push(cur@) =~= before.push(p).push(Seq::empty()));
        } else {
            let ghost before = views(done@);
            let ghost was = cur@;
            cur.push(c);
            assert(views(done@).push(cur@) =~= before.push(was).update(before.len() as int, was.push(c)));
        }
    }
    assert(s@.take(s.len() as int) =~= s@);
    let ghost before = views(done@);
    let ghost last = cur@;
    done.push(cur);
    assert(views(done@) =~= before.push(last));
    done
}

/// `str::strip_prefix`.
pub open spec fn strip_prefix(s: Seq<char>, p: Seq<char>) -> Option<Seq<char>> {
    if starts_with(s, p) {
        Some(s.skip(p.len() as int))
    } else {
        None
    }
}

/// `str::strip_suffix`.
pub open spec fn strip_suffix(s: Seq<char>, p: Seq<char>) -> Option<Seq<char>> {
    if ends_with(s, p) {
        Some(s.take(s.len() - p.len()))
    } else {
        None
    }
}

pub fn stripped_prefix(s: &Vec<char>, p: &str) -> (r: Option<Vec<char>>)
    ensures
        r matches Some(v) ==> strip_prefix(s@, p@) == Some(v@),
        r is None ==> strip_prefix(s@, p@) is None,
{
    let v = chars_of(p);
    if starts(s, &v) {
        Some(slice(s, v.len(), s.len()))
    } else {
        None
    }
}

pub fn stripped_suffix(s: &Vec<char>, p: &str) -> (r: Option<Vec<char>>)
    ensures
        r matches Some(v) ==> strip_suffix(s@, p@) == Some(v@),
        r is None ==> strip_suffix(s@, p@) is None,
{
    let v = chars_of(p);
    if ends(s, &v) {
        Some(slice(s, 0, s.len() - v.len()))
    } else {
        None
    }
}

/// `str::split_once` with a string pattern.
pub open spec fn split_once(s: Seq<char>, p: Seq<char>) -> Option<(Seq<char>, Seq<char>)> {
    match find(s, p) {
        Some(i) => Some((s.take(i), s.skip(i + p.len()))),
        None => None,
    }
}

pub fn split_once_at(s: &Vec<char>, p: &str) -> (r: Option<(Vec<char>, Vec<char>)>)
    ensures
        r matches Some(v) ==> split_once(s@, p@) == Some((v.0@, v.1@)),
        r is None ==> split_once(s@, p@) is None,
{
    let v = chars_of(p);
    match find_in(s, &v) {
        Some(i) => {
            assert(occurs_at(s@, v@, i as int));
            assert(i + v@.len() <= s@.len());
            let n = v.len();
            let m = s.len();
            assert(i + n <= m);
            let j: usize = i + n;
            Some((slice(s, 0, i), slice(s, j, s.len())))
        },
        None => None,
    }
}

/// `str::split_once` with a set of characters.
pub open spec fn split_once_class(s: Seq<char>, cl: Class) -> Option<(Seq<char>, Seq<char>)> {
    if any_in(s, cl) {
        let i = choose|i: int|
            0 <= i < s.len() && in_class(cl, s[i]) && forall|j: int| 0 <= j < i ==> !in_class(cl, s[j]);
        Some((s.take(i), s.skip(i + 1)))
    } else {
        None
    }
}

pub fn split_once_by(s: &Vec<char>, cl: Class) -> (r: Option<(Vec<char>, Vec<char>)>)
    ensures
        r matches Some(v) ==> split_once_class(s@, cl) == Some((v.0@, v.1@)),
        r is None ==> split_once_class(s@, cl) is None,
{
    for i in 0..s.len()
        invariant
            forall|j: int| 0 <= j < i ==> !in_class(cl, #[trigger] s@[j]),
    {
        if member(cl, s[i]) {
            proof {
                let c = choose|k: int|
                    0 <= k < s@.len() && in_class(cl, s@[k]) && forall|j: int| 0 <= j < k ==> !in_class(cl, s@[j]);
                assert(in_class(cl, s@[i as int]));
                if c < i {
                    assert(!in_class(cl, s@[c]));
                }
            }
            return Some((slice(s, 0, i), slice(s, i + 1, s.len())));
        }
    }
    None
}

/// A literal as characters.
pub fn lit(p: &str) -> (r: Vec<char>)
    ensures
        r@ == p@,
{
    chars_of(p)
}

/// The decimal digits of a number.
pub open spec fn decimal(n: nat) -> Seq<char>
    decreases n,
{
    if n < 10 {
        seq![digit_char(n)]
    } else {
        decimal(n / 10).push(digit_char(n % 10))
    }
}

pub open spec fn digit_char(d: nat) -> char {
    (('0' as u32) + d) as char
}

pub fn push_decimal(out: &mut Vec<char>, n: u64)
    ensures
        final(out)@ == old(out)@ + decimal(n as nat),
    decreases n,
{
    if n >= 10 {
        push_decimal(out, n / 10);
    }
    let d: u8 = (n % 10) as u8;
    let c: char = (48u8 + d) as char;
    assert(c == digit_char((n % 10) as nat));
    out.push(c);
    proof {
        if n >= 10 {
            assert(old(out)@ + decimal(n as nat) =~= old(out)@ + decimal((n / 10) as nat) + seq![c]);
        } else {
            assert(old(out)@ + decimal(n as nat) =~= old(out)@ + seq![c]);
        }
    }
}

/// A signed number in decimal, with a minus sign when it is negative.
pub open spec fn signed_decimal(n: int) -> Seq<char> {
    if n < 0 {
        seq!['-'] + decimal((-n) as nat)
    } else {
        decimal(n as nat)
    }
}

pub fn push_signed(out: &mut Vec<char>, n: i64)
    ensures
        final(out)@ == old(out)@ + signed_decimal(n as int),
{
    if n < 0 {
        out.push('-');
        let m: u64 = if n == i64::MIN { 9223372036854775808u64 } else { (-n) as u64 };
        assert(m == -(n as int));
        push_decimal(out, m);
        assert(old(out)@ + signed_decimal(n as int) =~= old(out)@.push('-') + decimal(m as nat));
    } else {
        push_decimal(out, n as u64);
    }
}


/// Whether two texts are the same.
pub fn same(a: &Vec<char>, b: &Vec<char>) -> (r: bool)
    ensures
        r == (a@ == b@),
{
    if a.len() != b.len() {
        return false;
    }
    for i in 0..a.len()
        invariant
            a.len() == b.len(),
            forall|j: int| 0 <= j < i ==> a@[j] == b@[j],
    {
        if a[i] != b[i] {
            return false;
        }
    }
    assert(a@ =~= b@);
    true
}

pub fn same_str(a: &Vec<char>, b: &str) -> (r: bool)
    ensures
        r == (a@ == b@),
{
    let v = chars_of(b);
    same(a, &v)
}

/// The first word of a text (`str::split_whitespace().next()`).
pub open spec fn first_word(s: Seq<char>) -> Option<Seq<char>> {
    let t = trim_start(s);
    if t.len() == 0 {
        None
    } else {
        Some(t.take(lead(t, Class::NotSpace) as int))
    }
}

pub proof fn lemma_trim_start_suffix(s: Seq<char>)
    ensures
        trim_start(s).len() <= s.len(),
        trim_start(s) == s.skip(s.len() - trim_start(s).len()),
    decreases s.len(),
{
    if s.len() > 0 && is_space(s[0]) {
        lemma_trim_start_suffix(s.drop_first());
        assert(s.drop_first().skip(s.drop_first().len() - trim_start(s).len()) =~= s.skip(s.len() - trim_start(s).len()));
    } else {
        assert(s.skip(0) =~= s);
    }
}

pub proof fn lemma_trim_start_first(s: Seq<char>)
    ensures
        trim_start(s).len() > 0 ==> !is_space(trim_start(s)[0]),
    decreases s.len(),
{
    if s.len() > 0 && is_space(s[0]) {
        lemma_trim_start_first(s.drop_first());
    }
}

pub proof fn lemma_trim_end_prefix(s: Seq<char>)
    ensures
        trim_end(s).len() <= s.len(),
        trim_end(s) == s.take(trim_end(s).len() as int),
    decreases s.len(),
{
    if s.len() > 0 && is_space(s.last()) {
        lemma_trim_end_prefix(s.drop_last());
        assert(s.drop_last().take(trim_end(s).len() as int) =~= s.take(trim_end(s).len() as int));
    } else {
        assert(s.take(s.len() as int) =~= s);
    }
}

pub fn first_word_of(s: &Vec<char>) -> (r: Option<Vec<char>>)
    ensures
        r matches Some(w) ==> first_word(s@) == Some(w@),
        r is None ==> first_word(s@) is None,
{
    let t = trimmed_start(s);
    if t.len() == 0 {
        return None;
    }
    let n = lead_of(&t, Class::NotSpace);
    Some(slice(&t, 0, n))
}


pub proof fn lemma_trim_len(s: Seq<char>)
    ensures
        trim(s).len() <= s.len(),
{
    lemma_trim_start_suffix(s);
    lemma_trim_end_prefix(trim_start(s));
}

/// A text that trimming leaves as it is neither starts nor ends with
/// white space.
pub proof fn lemma_trimmed_ends(s: Seq<char>)
    requires
        trim(s) == s,
        s.len() > 0,
    ensures
        !is_space(s[0]),
        !is_space(s.last()),
{
    lemma_trim_start_suffix(s);
    lemma_trim_end_prefix(trim_start(s));
    assert(trim_start(s).len() == s.len());
    assert(s.skip(0) =~= s);
    if is_space(s[0]) {
        lemma_trim_start_suffix(s.drop_first());
    }
    if is_space(s.last()) {
        lemma_trim_end_prefix(s.drop_last());
    }
}

/// A text that neither starts nor ends with white space is its own trim.
pub proof fn lemma_trim_bare(s: Seq<char>)
    requires
        s.len() > 0,
        !is_space(s[0]),
        !is_space(s.last()),
    ensures
        trim(s) == s,
{
    lemma_trim_start(s, 0);
    assert(s.skip(0) =~= s);
    lemma_trim_end(s, s.len() as int);
    assert(s.take(s.len() as int) =~= s);
}

/// `p` stands first at `i`: that is where `find` puts it.
pub proof fn lemma_find_first(s: Seq<char>, p: Seq<char>, i: int)
    requires
        occurs_at(s, p, i),
        forall|j: int| 0 <= j < i ==> !occurs_at(s, p, j),
    ensures
        find(s, p) == Some(i),
{
    reveal(find);
    let c = choose|k: int| occurs_at(s, p, k) && forall|j: int| 0 <= j < k ==> !occurs_at(s, p, j);
    assert(occurs_at(s, p, c));
    if c < i {
        assert(!occurs_at(s, p, c));
    }
    if i < c {
        assert(!occurs_at(s, p, i));
    }
}

/// `p` stands nowhere in `s`: `find` finds nothing.
pub proof fn lemma_find_none(s: Seq<char>, p: Seq<char>)
    requires
        forall|j: int| !occurs_at(s, p, j),
    ensures
        find(s, p) is None,
{
    reveal(find);
}

/// A text with no line feed in it is one line being read.
pub proof fn lemma_line_state_plain(s: Seq<char>)
    requires
        forall|i: int| 0 <= i < s.len() ==> s[i] != '\n',
    ensures
        line_state(s) == (Seq::<Seq<char>>::empty(), s),
    decreases s.len(),
{
    if s.len() > 0 {
        lemma_line_state_plain(s.drop_last());
        assert(s.drop_last().push(s.last()) =~= s);
    }
}

/// A text with no line feed in it is a single line.
pub proof fn lemma_one_line(s: Seq<char>)
    requires
        s.len() > 0,
        forall|i: int| 0 <= i < s.len() ==> s[i] != '\n',
    ensures
        lines(s) == seq![s],
{
    lemma_line_state_plain(s);
    assert(Seq::<Seq<char>>::empty().push(s) =~= seq![s]);
}

/// The blank lines a block of text ends with: the line endings after its
/// last word, less the one that ends that word's own line.
pub open spec fn gap_after(body: Seq<char>) -> int {
    let t = trim(body);
    let at = match find(body, t) {
        Some(i) => i,
        None => 0,
    } + t.len();
    let n = count_char(body.skip(at), '\n');
    if n > 0 {
        n - 1
    } else {
        0
    }
}

pub fn gap_of(body: &Vec<char>) -> (r: usize)
    ensures
        r == gap_after(body@),
{
    let t = trimmed(body);
    proof {
        lemma_trim_len(body@);
    }
    let m = body.len();
    let at = match find_in(body, &t) {
        Some(i) => {
            assert(i + t@.len() <= m);
            i + t.len()
        },
        None => t.len(),
    };
    let rest = slice(body, at, body.len());
    let n = count_of(&rest, '\n');
    if n > 0 {
        n - 1
    } else {
        0
    }
}

/// The bytes a character takes in UTF-8.
pub open spec fn utf8_width(c: char) -> nat {
    if (c as u32) < 0x80 {
        1
    } else if (c as u32) < 0x800 {
        2
    } else if (c as u32) < 0x10000 {
        3
    } else {
        4
    }
}

/// The bytes a text takes in UTF-8 (`str::len`).
pub open spec fn utf8_len(s: Seq<char>) -> nat
    decreases s.len(),
{
    if s.len() == 0 {
        0
    } else {
        utf8_len(s.drop_last()) + utf8_width(s.last())
    }
}

pub fn width_of(c: char) -> (r: usize)
    ensures
        r == utf8_width(c),
{
    let n = c as u32;
    if n < 0x80 {
        1
    } else if n < 0x800 {
        2
    } else if n < 0x10000 {
        3
    } else {
        4
    }
}

/// The last character of `s` in the class, by position.
pub open spec fn last_in(s: Seq<char>, cl: Class) -> Option<int>
    decreases s.len(),
{
    if s.len() == 0 {
        None
    } else if in_class(cl, s.last()) {
        Some(s.len() - 1)
    } else {
        last_in(s.drop_last(), cl)
    }
}

pub fn last_of(s: &Vec<char>, cl: Class) -> (r: Option<usize>)
    ensures
        r matches Some(i) ==> last_in(s@, cl) == Some(i as int) && i < s.len(),
        r is None ==> last_in(s@, cl) is None,
{
    let mut k: usize = s.len();
    assert(s@.take(k as int) =~= s@);
    while k > 0
        invariant
            k <= s.len(),
            last_in(s@.take(k as int), cl) == last_in(s@, cl),
        decreases k,
    {
        assert(s@.take(k as int).drop_last() =~= s@.take(k - 1));
        if member(cl, s[k - 1]) {
            return Some(k - 1);
        }
        k = k - 1;
    }
    None
}

/// `str::split` with a string pattern: the pieces between the occurrences
/// of `p`, taken from the front without overlapping.
pub open spec fn split_on(s: Seq<char>, p: Seq<char>) -> Seq<Seq<char>>
    decreases s.len(),
{
    if p.len() == 0 {
        seq![s]
    } else {
        match find(s, p) {
            Some(i) => if 0 <= i && i + p.len() <= s.len() {
                seq![s.take(i)] + split_on(s.skip(i + p.len()), p)
            } else {
                seq![s]
            },
            None => seq![s],
        }
    }
}

pub fn split_at_each(s: &Vec<char>, p: &str) -> (r: Vec<Vec<char>>)
    requires
        p@.len() > 0,
    ensures
        views(r@) == split_on(s@, p@),
{
    let pv = chars_of(p);
    let mut out: Vec<Vec<char>> = Vec::new();
    let mut rest = slice(s, 0, s.len());
    assert(s@.subrange(0, s@.len() as int) =~= s@);
    loop
        invariant
            pv@ == p@,
            p@.len() > 0,
            views(out@) + split_on(rest@, p@) == split_on(s@, p@),
        decreases rest.len(),
    {
        match find_in(&rest, &pv) {
            Some(i) => {
                assert(occurs_at(rest@, pv@, i as int));
                let m = rest.len();
                let n = pv.len();
                assert(i + n <= m);
                let head = slice(&rest, 0, i);
                let tail = slice(&rest, i + n, m);
                let ghost before = views(out@);
                out.push(head);
                assert(views(out@) =~= before.push(head@));
                assert(split_on(rest@, p@) =~= seq![rest@.take(i as int)] + split_on(tail@, p@));
                assert(views(out@) + split_on(tail@, p@) =~= before + split_on(rest@, p@));
                rest = tail;
            },
            None => {
                let ghost before = views(out@);
                assert(split_on(rest@, p@) == seq![rest@]);
                out.push(rest);
                assert(views(out@) =~= before + seq![out@.last()@]);
                return out;
            },
        }
    }
}

/// Pieces joined by a separator (`join`).
pub open spec fn joined(ps: Seq<Seq<char>>, sep: Seq<char>) -> Seq<char>
    decreases ps.len(),
{
    if ps.len() == 0 {
        Seq::empty()
    } else if ps.len() == 1 {
        ps[0]
    } else {
        joined(ps.drop_last(), sep) + sep + ps.last()
    }
}

pub fn join_with(ws: &Vec<Vec<char>>, sep: &str) -> (r: Vec<char>)
    ensures
        r@ == joined(views(ws@), sep@),
{
    let ghost all = views(ws@);
    let mut out: Vec<char> = Vec::new();
    for i in 0..ws.len()
        invariant
            all == views(ws@),
            out@ == joined(all.take(i as int), sep@),
    {
        assert(all.take(i + 1).drop_last() =~= all.take(i as int));
        assert(all[i as int] == ws@[i as int]@);
        if i > 0 {
            append_str(&mut out, sep);
        } else {
            assert(all.take(1) =~= seq![all[0]]);
        }
        append(&mut out, &ws[i]);
    }
    assert(all.take(ws.len() as int) =~= all);
    out
}

/// The pieces that are not empty.
pub open spec fn nonempty(ps: Seq<Seq<char>>) -> Seq<Seq<char>>
    decreases ps.len(),
{
    if ps.len() == 0 {
        Seq::empty()
    } else if ps.last().len() > 0 {
        nonempty(ps.drop_last()).push(ps.last())
    } else {
        nonempty(ps.drop_last())
    }
}

/// `str::split_whitespace`.
pub open spec fn words(s: Seq<char>) -> Seq<Seq<char>> {
    nonempty(split_class(s, Class::Space))
}

pub fn words_of(s: &Vec<char>) -> (r: Vec<Vec<char>>)
    ensures
        views(r@) == words(s@),
{
    let ps = split_by(s, Class::Space);
    let ghost all = views(ps@);
    let mut out: Vec<Vec<char>> = Vec::new();
    for i in 0..ps.len()
        invariant
            all == views(ps@),
            views(out@) == nonempty(all.take(i as int)),
    {
        assert(all.take(i + 1).drop_last() =~= all.take(i as int));
        assert(all[i as int] == ps@[i as int]@);
        if ps[i].len() > 0 {
            let ghost before = views(out@);
            out.push(slice(&ps[i], 0, ps[i].len()));
            assert(ps@[i as int]@.subrange(0, ps@[i as int]@.len() as int) =~= ps@[i as int]@);
            assert(views(out@) =~= before.push(all[i as int]));
        }
    }
    assert(all.take(ps.len() as int) =~= all);
    out
}

/// Whether `p` occurs anywhere in `s` (`str::contains`).
pub fn has_text(s: &Vec<char>, p: &str) -> (r: bool)
    ensures
        r == contains(s@, p@),
{
    let r = find_str(s, p);
    proof {
        reveal(find);
    }
    r.is_some()
}

/// `str::trim_start_matches` with a text: every copy of it at the front
/// goes.
pub open spec fn drop_prefixes(s: Seq<char>, p: Seq<char>) -> Seq<char>
    decreases s.len(),
{
    if p.len() > 0 && starts_with(s, p) {
        drop_prefixes(s.skip(p.len() as int), p)
    } else {
        s
    }
}

pub fn dropped_prefixes(s: &Vec<char>, p: &str) -> (r: Vec<char>)
    requires
        p@.len() > 0,
    ensures
        r@ == drop_prefixes(s@, p@),
{
    let pv = chars_of(p);
    let mut k: usize = 0;
    assert(s@.skip(0) =~= s@);
    loop
        invariant
            k <= s.len(),
            pv@ == p@,
            p@.len() > 0,
            drop_prefixes(s@.skip(k as int), p@) == drop_prefixes(s@, p@),
        decreases s.len() - k,
    {
        let t = slice(s, k, s.len());
        assert(t@ =~= s@.skip(k as int));
        if starts(&t, &pv) {
            assert(s@.skip(k as int).skip(pv@.len() as int) =~= s@.skip(k + pv@.len()));
            k = k + pv.len();
        } else {
            return t;
        }
    }
}

/// Text with no character of the class in it only lengthens the last piece
/// of a split.
pub proof fn lemma_split_plain(x: Seq<char>, y: Seq<char>, cl: Class)
    requires
        forall|j: int| 0 <= j < y.len() ==> !in_class(cl, #[trigger] y[j]),
    ensures
        split_class(x + y, cl) == split_class(x, cl).update(
            split_class(x, cl).len() - 1,
            split_class(x, cl).last() + y,
        ),
    decreases y.len(),
{
    lemma_split_nonempty(x, cl);
    if y.len() == 0 {
        assert(x + y =~= x);
        let p = split_class(x, cl);
        assert(p.update(p.len() - 1, p.last() + y) =~= p);
    } else {
        let y0 = y.drop_last();
        assert forall|j: int| 0 <= j < y0.len() implies !in_class(cl, #[trigger] y0[j]) by {
            assert(y0[j] == y[j]);
        }
        lemma_split_plain(x, y0, cl);
        assert((x + y).drop_last() =~= x + y0);
        assert((x + y).last() == y.last());
        assert(!in_class(cl, y[y.len() - 1]));
        let p = split_class(x, cl);
        let q = p.update(p.len() - 1, p.last() + y0);
        assert(q.len() == p.len() && q.last() == p.last() + y0);
        assert(y0.push(y.last()) =~= y);
        assert((p.last() + y0).push(y.last()) =~= p.last() + y);
        assert(q.update(q.len() - 1, q.last().push(y.last())) =~= p.update(p.len() - 1, p.last() + y));
    }
}

/// Splitting at a character undoes joining with it, when no piece holds
/// the character.
pub proof fn lemma_split_joined(ps: Seq<Seq<char>>, c: char)
    requires
        ps.len() >= 1,
        forall|i: int, j: int| 0 <= i < ps.len() && 0 <= j < ps[i].len() ==> #[trigger] ps[i][j] != c,
    ensures
        split_class(joined(ps, seq![c]), Class::Is(c)) == ps,
    decreases ps.len(),
{
    let cl = Class::Is(c);
    let last = ps.last();
    assert forall|j: int| 0 <= j < last.len() implies !in_class(cl, #[trigger] last[j]) by {
        assert(ps[ps.len() - 1][j] != c);
    }
    if ps.len() == 1 {
        lemma_split_plain(Seq::empty(), last, cl);
        assert(Seq::<char>::empty() + last =~= last);
        assert(split_class(Seq::<char>::empty(), cl) =~= seq![Seq::<char>::empty()]);
        assert(seq![Seq::<char>::empty()].update(0, Seq::<char>::empty() + last) =~= ps);
    } else {
        let init = ps.drop_last();
        assert forall|i: int, j: int| 0 <= i < init.len() && 0 <= j < init[i].len() implies #[trigger] init[i][j]
            != c by {
            assert(init[i] == ps[i]);
        }
        lemma_split_joined(init, c);
        let x = joined(init, seq![c]);
        assert(x.push(c).drop_last() =~= x);
        assert(split_class(x.push(c), cl) == init.push(Seq::empty()));
        lemma_split_plain(x.push(c), last, cl);
        assert(joined(ps, seq![c]) =~= x.push(c) + last);
        let p = init.push(Seq::<char>::empty());
        assert(p.update(p.len() - 1, p.last() + last) =~= ps);
    }
}

} // verus!
