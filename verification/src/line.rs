//! The line as the world sees it: a public registry, written from the
//! record. What is published is only what is already public, and that
//! boundary is checked here, on the file as it will be written.
use vstd::prelude::*;
use crate::text::{
    append, append_str, chars_of, chars_of_string, contains, is_hex, is_lower, starts_with, text_of, utf8_len,
};

verus! {

/// The whole registry, as it is published.
#[derive(Debug)]
pub struct Registry {
    /// What wrote this.
    pub generator: &'static str,
    pub version: &'static str,
    pub products: Vec<Product>,
}

/// One product, as the world may see it.
#[derive(Debug)]
pub struct Product {
    pub name: String,
    pub about: Option<String>,
    pub mark: Option<String>,
    pub accent: Option<String>,
    /// The second colour, for a mark drawn as a pair.
    pub accent2: Option<String>,
    pub form: Option<String>,
    pub repository: Option<String>,
    pub docs: Option<String>,
}

/// Why something may not be published, or is not written the line's way.
#[derive(Debug, Clone, PartialEq, Eq)]
pub enum Refusal {
    /// The file would carry a path on a machine.
    PrivatePath(String),
    /// A product's repository is not a public address.
    NotARepository(String, String),
    /// A product's documentation is not a public address.
    NotDocs(String, String),
    NotAColour(String),
    NotACode(String),
    NotAForm(String),
}

impl Refusal {
    /// What the refusal says.
    pub fn message(&self) -> (r: String)
        ensures
            r@ == refusal_text(*self),
    {
        let mut out: Vec<char> = Vec::new();
        match self {
            Refusal::PrivatePath(mark) => {
                append_str(&mut out, "the registry would publish `");
                append(&mut out, &chars_of_string(mark));
                append_str(&mut out, "`, which is a path on a machine, not a fact about a product");
            },
            Refusal::NotARepository(name, repo) => {
                append(&mut out, &chars_of_string(name));
                append_str(&mut out, ": `");
                append(&mut out, &chars_of_string(repo));
                append_str(&mut out, "` is not a public repository address");
            },
            Refusal::NotDocs(name, docs) => {
                append(&mut out, &chars_of_string(name));
                append_str(&mut out, ": `");
                append(&mut out, &chars_of_string(docs));
                append_str(&mut out, "` is not a public documentation address");
            },
            Refusal::NotAColour(a) => {
                append_str(&mut out, "`");
                append(&mut out, &chars_of_string(a));
                append_str(&mut out, "` is not a colour; the line writes them as #RRGGBB");
            },
            Refusal::NotACode(c) => {
                append_str(&mut out, "`");
                append(&mut out, &chars_of_string(c));
                append_str(&mut out, "` is not a mark's code; they are two lowercase letters");
            },
            Refusal::NotAForm(f) => {
                append_str(&mut out, "`");
                append(&mut out, &chars_of_string(f));
                append_str(&mut out, "` is not a form this line builds; they are cli, desktop, web, library, service");
            },
        }
        text_of(&out)
    }
}

pub open spec fn refusal_text(r: Refusal) -> Seq<char> {
    match r {
        Refusal::PrivatePath(mark) => "the registry would publish `"@ + mark@
            + "`, which is a path on a machine, not a fact about a product"@,
        Refusal::NotARepository(name, repo) => name@ + ": `"@ + repo@ + "` is not a public repository address"@,
        Refusal::NotDocs(name, docs) => name@ + ": `"@ + docs@ + "` is not a public documentation address"@,
        Refusal::NotAColour(a) => "`"@ + a@ + "` is not a colour; the line writes them as #RRGGBB"@,
        Refusal::NotACode(c) => "`"@ + c@ + "` is not a mark's code; they are two lowercase letters"@,
        Refusal::NotAForm(f) => "`"@ + f@ + "` is not a form this line builds; they are cli, desktop, web, library, service"@,
    }
}

/// The marks of a path on a machine: a drive letter, a UNC prefix, a home
/// directory.
pub open spec fn path_marks() -> Seq<Seq<char>> {
    seq!["C:\\"@, "c:\\"@, "C:/"@, "\\\\"@, "/home/"@, "/Users/"@]
}

/// The first mark of a path the file would carry.
pub open spec fn first_mark(json: Seq<char>, marks: Seq<Seq<char>>) -> Option<Seq<char>>
    decreases marks.len(),
{
    if marks.len() == 0 {
        None
    } else if contains(json, marks[0]) {
        Some(marks[0])
    } else {
        first_mark(json, marks.drop_first())
    }
}

/// A refusal as its kind and the texts it names.
pub open spec fn refusal_view(r: Refusal) -> (int, Seq<char>, Seq<char>) {
    match r {
        Refusal::PrivatePath(m) => (0, m@, Seq::empty()),
        Refusal::NotARepository(n, x) => (1, n@, x@),
        Refusal::NotDocs(n, x) => (2, n@, x@),
        Refusal::NotAColour(a) => (3, a@, Seq::empty()),
        Refusal::NotACode(c) => (4, c@, Seq::empty()),
        Refusal::NotAForm(f) => (5, f@, Seq::empty()),
    }
}

/// What is wrong with one product's addresses, if anything: a repository
/// that is neither `https://` nor `git@`, then documentation that is not
/// `https://`.
pub open spec fn private_in(p: Product) -> Option<(int, Seq<char>, Seq<char>)> {
    match p.repository {
        Some(repo) if !starts_with(repo@, "https://"@) && !starts_with(repo@, "git@"@) => Some((1, p.name@, repo@)),
        _ => match p.docs {
            Some(docs) if !starts_with(docs@, "https://"@) => Some((2, p.name@, docs@)),
            _ => None,
        },
    }
}

/// The first product with something wrong with its addresses.
pub open spec fn first_private(ps: Seq<Product>) -> Option<(int, Seq<char>, Seq<char>)>
    decreases ps.len(),
{
    if ps.len() == 0 {
        None
    } else {
        match private_in(ps[0]) {
            Some(e) => Some(e),
            None => first_private(ps.drop_first()),
        }
    }
}

/// Whether anything private got into the registry: a path on a machine in
/// the file as it will be written, then the products' addresses.
pub open spec fn public_check(products: Seq<Product>, json: Seq<char>) -> Option<(int, Seq<char>, Seq<char>)> {
    match first_mark(json, path_marks()) {
        Some(m) => Some((0, m, Seq::empty())),
        None => first_private(products),
    }
}

fn copy_text(s: &String) -> (r: String)
    ensures
        r@ == s@,
{
    s.clone()
}

fn private_of(p: &Product) -> (r: Option<Refusal>)
    ensures
        match private_in(*p) {
            Some(e) => r matches Some(x) && refusal_view(x) == e,
            None => r is None,
        },
{
    match &p.repository {
        Some(repo) => {
            let s = chars_of_string(repo);
            if !crate::text::starts_str(&s, "https://") && !crate::text::starts_str(&s, "git@") {
                return Some(Refusal::NotARepository(copy_text(&p.name), copy_text(repo)));
            }
        },
        None => {},
    }
    match &p.docs {
        Some(docs) => {
            let s = chars_of_string(docs);
            if !crate::text::starts_str(&s, "https://") {
                return Some(Refusal::NotDocs(copy_text(&p.name), copy_text(docs)));
            }
        },
        None => {},
    }
    None
}

/// Whether anything private got into the registry. `json` is the file as
/// it will be written: a path on a machine is refused whatever field it
/// came in through.
pub fn check_public(registry: &Registry, json: &str) -> (r: Result<(), Refusal>)
    ensures
        match public_check(registry.products@, json@) {
            Some(e) => r matches Err(x) && refusal_view(x) == e,
            None => r is Ok,
        },
{
    let s = chars_of(json);
    let marks: Vec<&'static str> = vec!["C:\\", "c:\\", "C:/", "\\\\", "/home/", "/Users/"];
    let ghost ms = path_marks();
    assert(marks@.map_values(|m: &'static str| m@) =~= ms);
    let mut k: usize = 0;
    assert(ms.skip(0) =~= ms);
    while k < marks.len()
        invariant
            k <= marks.len(),
            ms == path_marks(),
            marks@.map_values(|m: &'static str| m@) == ms,
            s@ == json@,
            first_mark(json@, ms.skip(k as int)) == first_mark(json@, ms),
        decreases marks.len() - k,
    {
        assert(ms.skip(k as int)[0] == marks@[k as int]@);
        if crate::text::has_text(&s, marks[k]) {
            return Err(Refusal::PrivatePath(marks[k].to_owned()));
        }
        assert(ms.skip(k as int).drop_first() =~= ms.skip(k + 1));
        k = k + 1;
    }
    assert(ms.skip(k as int) =~= Seq::<Seq<char>>::empty());
    assert(first_mark(json@, path_marks()) is None);
    let ps = &registry.products;
    let mut j: usize = 0;
    assert(ps@.skip(0) =~= ps@);
    while j < ps.len()
        invariant
            j <= ps.len(),
            ps@ == registry.products@,
            first_mark(json@, path_marks()) is None,
            first_private(ps@.skip(j as int)) == first_private(ps@),
        decreases ps.len() - j,
    {
        assert(ps@.skip(j as int)[0] == ps@[j as int]);
        match private_of(&ps[j]) {
            Some(e) => {
                assert(private_in(ps@[j as int]) is Some);
                assert(first_private(ps@.skip(j as int)) == private_in(ps@[j as int]));
                assert(public_check(registry.products@, json@) == first_private(ps@));
                return Err(e);
            },
            None => {},
        }
        assert(ps@.skip(j as int).drop_first() =~= ps@.skip(j + 1));
        j = j + 1;
    }
    Ok(())
}

/// A colour written the line's way: `#` and six hex digits.
pub open spec fn colour_ok(a: Seq<char>) -> bool {
    utf8_len(a) == 7 && a.len() > 0 && a[0] == '#' && forall|i: int| 1 <= i < a.len() ==> is_hex(#[trigger] a[i])
}

/// Whether a colour is written the way the line writes colours.
pub fn check_accent(accent: &str) -> (r: Result<(), Refusal>)
    ensures
        colour_ok(accent@) ==> r is Ok,
        !colour_ok(accent@) ==> (r matches Err(Refusal::NotAColour(a)) && a@ == accent@),
{
    let s = chars_of(accent);
    let mut bytes: usize = 0;
    let mut i: usize = 0;
    while i < s.len()
        invariant
            i <= s.len(),
            bytes <= 8,
            bytes <= 7 ==> bytes == utf8_len(s@.take(i as int)),
            bytes > 7 ==> utf8_len(s@.take(i as int)) > 7,
        decreases s.len() - i,
    {
        assert(s@.take(i + 1).drop_last() =~= s@.take(i as int));
        if bytes <= 7 {
            let w = crate::text::width_of(s[i]);
            bytes = if bytes + w > 7 {
                8
            } else {
                bytes + w
            };
        }
        i = i + 1;
    }
    assert(s@.take(s.len() as int) =~= s@);
    let mut ok = bytes == 7 && s.len() > 0 && s[0] == '#';
    if ok {
        for k in 1..s.len()
            invariant
                s@ == accent@,
                ok == forall|j: int| 1 <= j < k ==> is_hex(#[trigger] s@[j]),
        {
            if !crate::text::hex(s[k]) {
                ok = false;
            }
        }
    }
    if ok {
        Ok(())
    } else {
        Err(Refusal::NotAColour(accent.to_owned()))
    }
}

/// A mark's code: two lowercase letters.
pub open spec fn code_ok(c: Seq<char>) -> bool {
    c.len() == 2 && is_lower(c[0]) && is_lower(c[1])
}

/// Whether a mark's code is one of the line's.
pub fn check_code(code: &str) -> (r: Result<(), Refusal>)
    ensures
        code_ok(code@) ==> r is Ok,
        !code_ok(code@) ==> (r matches Err(Refusal::NotACode(c)) && c@ == code@),
{
    let s = chars_of(code);
    if s.len() == 2 && 'a' <= s[0] && s[0] <= 'z' && 'a' <= s[1] && s[1] <= 'z' {
        Ok(())
    } else {
        Err(Refusal::NotACode(code.to_owned()))
    }
}

/// The shapes of thing this line builds.
pub open spec fn forms() -> Seq<Seq<char>> {
    seq!["cli"@, "desktop"@, "web"@, "library"@, "service"@]
}

/// Whether a form is one the line builds.
pub fn check_form(form: &str) -> (r: Result<(), Refusal>)
    ensures
        forms().contains(form@) ==> r is Ok,
        !forms().contains(form@) ==> (r matches Err(Refusal::NotAForm(f)) && f@ == form@),
{
    let s = chars_of(form);
    let all: Vec<&'static str> = vec!["cli", "desktop", "web", "library", "service"];
    assert(all@.map_values(|m: &'static str| m@) =~= forms());
    for k in 0..all.len()
        invariant
            s@ == form@,
            all@.map_values(|m: &'static str| m@) == forms(),
            forall|j: int| 0 <= j < k ==> forms()[j] != form@,
    {
        assert(forms()[k as int] == all@[k as int]@);
        if crate::text::same_str(&s, all[k]) {
            assert(forms()[k as int] == form@);
            return Ok(());
        }
    }
    Err(Refusal::NotAForm(form.to_owned()))
}


/// Whether one product's name sorts before another's.
pub open spec fn name_before(a: Product, b: Product) -> bool {
    crate::order::text_order(a.name@, b.name@) < 0
}

pub open spec fn name_order() -> spec_fn(Product, Product) -> bool {
    |a: Product, b: Product| name_before(a, b)
}

fn name_comes_before(a: &Product, b: &Product) -> (r: bool)
    ensures
        r == name_before(*a, *b),
{
    crate::order::compare_strings(&a.name, &b.name) < 0
}

/// The products of the projects that have a repository, in the order read.
pub open spec fn repositories(projects: Seq<(Product, bool)>) -> Seq<Product>
    decreases projects.len(),
{
    if projects.len() == 0 {
        Seq::empty()
    } else if projects.last().1 {
        repositories(projects.drop_last()).push(projects.last().0)
    } else {
        repositories(projects.drop_last())
    }
}

/// The registry the line publishes: the product of every project with a
/// repository (the flag beside it), by name. A place the record keeps for
/// itself ships nothing and is left out.
pub fn registry(projects: Vec<(Product, bool)>, version: &'static str) -> (r: Registry)
    ensures
        r.generator@ == "rigger"@,
        r.version == version,
        r.products@ == crate::order::stable_sort(repositories(projects@), name_order()),
{
    let ghost all = projects@;
    let mut kept: Vec<Product> = Vec::new();
    let mut rest = projects;
    let n = rest.len();
    let mut k: usize = 0;
    assert(all.skip(0) =~= all);
    while rest.len() > 0
        invariant
            n == all.len(),
            k <= all.len(),
            rest@ == all.skip(k as int),
            kept@ == repositories(all.take(k as int)),
        decreases rest.len(),
    {
        let (p, repo) = rest.remove(0);
        assert(all.take(k + 1).drop_last() =~= all.take(k as int));
        assert(all.take(k + 1).last() == (p, repo));
        assert(all.skip(k + 1) =~= all.skip(k as int).drop_first());
        if repo {
            kept.push(p);
        }
        k = k + 1;
    }
    assert(all.take(all.len() as int) =~= all);
    let products = crate::order::sorted_by(kept, &name_comes_before, Ghost(name_order()));
    Registry { generator: "rigger", version, products }
}

} // verus!
