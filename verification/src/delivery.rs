//! What the outside world says about a version the tag called shipped: the
//! release, its archives and the publish run are a second fact about the
//! same version, named and read here. Asking GitHub is the program's work;
//! what the answers add up to is decided here.
use vstd::prelude::*;
use crate::number::parsed;
use crate::text::{append, append_str, chars_of, chars_of_string, contains, drop_tail, dropped_tail, ends_with, lower_all, lower_text, split_by, split_class, starts_with, strings, text_of, trim, trimmed, views, Class};

verus! {

/// How far a shipped version got past its tag.
#[derive(Debug, Clone, Copy, PartialEq, Eq, Structural)]
pub enum Delivery {
    /// A tag and nothing else: no release was made for it.
    TagOnly,
    /// A release exists but carries no archives to install from.
    NoAssets,
    /// A release with its archives; no publish run was found for the tag.
    Released,
    /// A publish run for the tag has not finished yet.
    PublishRunning,
    /// The publish run for the tag went red.
    PublishFailed,
    /// Released and published, or the release engine said which
    /// registries the version reached.
    Published,
}

pub open spec fn delivery_name(d: Delivery) -> Seq<char> {
    match d {
        Delivery::TagOnly => "tag-only"@,
        Delivery::NoAssets => "no-assets"@,
        Delivery::Released => "released"@,
        Delivery::PublishRunning => "publish-running"@,
        Delivery::PublishFailed => "publish-failed"@,
        Delivery::Published => "published"@,
    }
}

pub open spec fn delivery_named(s: Seq<char>) -> Option<Delivery> {
    if s == "tag-only"@ {
        Some(Delivery::TagOnly)
    } else if s == "no-assets"@ {
        Some(Delivery::NoAssets)
    } else if s == "released"@ {
        Some(Delivery::Released)
    } else if s == "publish-running"@ {
        Some(Delivery::PublishRunning)
    } else if s == "publish-failed"@ {
        Some(Delivery::PublishFailed)
    } else if s == "published"@ {
        Some(Delivery::Published)
    } else {
        None
    }
}

/// What the release engine's word amounts to: a registry reached is a
/// publish that worked; a release alone is released; neither is a tag.
pub open spec fn engine_delivery(release: bool, registries: nat) -> Delivery {
    if registries > 0 {
        Delivery::Published
    } else if release {
        Delivery::Released
    } else {
        Delivery::TagOnly
    }
}

impl Delivery {
    pub fn as_str(self) -> (r: &'static str)
        ensures
            r@ == delivery_name(self),
    {
        match self {
            Delivery::TagOnly => "tag-only",
            Delivery::NoAssets => "no-assets",
            Delivery::Released => "released",
            Delivery::PublishRunning => "publish-running",
            Delivery::PublishFailed => "publish-failed",
            Delivery::Published => "published",
        }
    }

    pub fn parse(text: &str) -> (r: Option<Delivery>)
        ensures
            r == delivery_named(text@),
    {
        let t = chars_of(text);
        if crate::text::same_str(&t, "tag-only") {
            Some(Delivery::TagOnly)
        } else if crate::text::same_str(&t, "no-assets") {
            Some(Delivery::NoAssets)
        } else if crate::text::same_str(&t, "released") {
            Some(Delivery::Released)
        } else if crate::text::same_str(&t, "publish-running") {
            Some(Delivery::PublishRunning)
        } else if crate::text::same_str(&t, "publish-failed") {
            Some(Delivery::PublishFailed)
        } else if crate::text::same_str(&t, "published") {
            Some(Delivery::Published)
        } else {
            None
        }
    }

    /// The state in the words a screen uses.
    pub fn describe(self) -> (r: &'static str)
        ensures
            r@ == (match self {
                Delivery::TagOnly => "tag exists, no release"@,
                Delivery::NoAssets => "released without archives"@,
                Delivery::Released => "released"@,
                Delivery::PublishRunning => "released, publish still running"@,
                Delivery::PublishFailed => "released, publish failed"@,
                Delivery::Published => "released and published"@,
            }),
    {
        match self {
            Delivery::TagOnly => "tag exists, no release",
            Delivery::NoAssets => "released without archives",
            Delivery::Released => "released",
            Delivery::PublishRunning => "released, publish still running",
            Delivery::PublishFailed => "released, publish failed",
            Delivery::Published => "released and published",
        }
    }

    /// Whether the owner should hear about it: counted as shipped, and
    /// nobody can install it.
    pub fn is_short(self) -> (r: bool)
        ensures
            r == (self == Delivery::TagOnly || self == Delivery::NoAssets || self == Delivery::PublishFailed),
    {
        match self {
            Delivery::TagOnly | Delivery::NoAssets | Delivery::PublishFailed => true,
            _ => false,
        }
    }

    /// What the release engine's word amounts to.
    pub fn from_engine(release: bool, registries: &[String]) -> (r: Delivery)
        ensures
            r == engine_delivery(release, registries@.len()),
    {
        if registries.len() > 0 {
            Delivery::Published
        } else if release {
            Delivery::Released
        } else {
            Delivery::TagOnly
        }
    }
}

/// Every state reads back as itself, and no two share a name.
pub proof fn law_delivery_names_read_back(d: Delivery, e: Delivery)
    ensures
        delivery_named(delivery_name(d)) == Some(d),
        delivery_name(d) == delivery_name(e) ==> d == e,
{
    reveal_strlit("tag-only");
    reveal_strlit("no-assets");
    reveal_strlit("released");
    reveal_strlit("publish-running");
    reveal_strlit("publish-failed");
    reveal_strlit("published");
    assert("tag-only"@[0] == 't' && "no-assets"@[0] == 'n' && "released"@[0] == 'r');
    assert("publish-running"@.len() == 15 && "publish-failed"@.len() == 14 && "published"@.len() == 9);
    assert("publish-running"@[8] == 'r' && "publish-failed"@[8] == 'f');
}

/// `str::trim_end_matches` with a text: every copy of it at the end goes.
pub open spec fn drop_suffixes(s: Seq<char>, p: Seq<char>) -> Seq<char>
    decreases s.len(),
{
    if p.len() > 0 && ends_with(s, p) {
        drop_suffixes(s.take(s.len() - p.len()), p)
    } else {
        s
    }
}

fn dropped_suffixes(s: &Vec<char>, p: &str) -> (r: Vec<char>)
    requires
        p@.len() > 0,
    ensures
        r@ == drop_suffixes(s@, p@),
{
    let pv = chars_of(p);
    let mut k: usize = s.len();
    assert(s@.take(k as int) =~= s@);
    loop
        invariant
            k <= s.len(),
            pv@ == p@,
            p@.len() > 0,
            drop_suffixes(s@.take(k as int), p@) == drop_suffixes(s@, p@),
        decreases k,
    {
        let t = crate::text::slice(s, 0, k);
        if crate::text::ends(&t, &pv) {
            assert(s@.take(k as int).take(k - pv@.len()) =~= s@.take(k - pv@.len()));
            k = k - pv.len();
        } else {
            return t;
        }
    }
}

/// What is left of a remote once a GitHub address is taken off its front.
pub open spec fn github_rest(remote: Seq<char>) -> Option<Seq<char>> {
    if starts_with(remote, "https://github.com/"@) {
        Some(remote.skip("https://github.com/"@.len() as int))
    } else if starts_with(remote, "http://github.com/"@) {
        Some(remote.skip("http://github.com/"@.len() as int))
    } else if starts_with(remote, "git@github.com:"@) {
        Some(remote.skip("git@github.com:"@.len() as int))
    } else if starts_with(remote, "ssh://git@github.com/"@) {
        Some(remote.skip("ssh://git@github.com/"@.len() as int))
    } else {
        None
    }
}

/// `owner/name` of a GitHub remote, in either spelling a clone leaves
/// behind; `None` for any other host or shape.
pub open spec fn github_name(remote: Seq<char>) -> Option<Seq<char>> {
    match github_rest(remote) {
        Some(rest) => {
            let parts = split_class(drop_suffixes(drop_tail(rest, Class::Is('/')), ".git"@), Class::Is('/'));
            if parts.len() == 2 && parts[0].len() > 0 && parts[1].len() > 0 {
                Some(parts[0] + "/"@ + parts[1])
            } else {
                None
            }
        },
        None => None,
    }
}

fn after_prefix(s: &Vec<char>, p: &str) -> (r: Option<Vec<char>>)
    ensures
        r matches Some(v) ==> starts_with(s@, p@) && v@ == s@.skip(p@.len() as int),
        r is None ==> !starts_with(s@, p@),
{
    match crate::text::stripped_prefix(s, p) {
        Some(v) => Some(v),
        None => None,
    }
}

pub fn github_repo(remote: &str) -> (r: Option<String>)
    ensures
        r matches Some(t) ==> github_name(remote@) == Some(t@),
        r is None ==> github_name(remote@) is None,
{
    let s = chars_of(remote);
    let rest = match after_prefix(&s, "https://github.com/") {
        Some(v) => v,
        None => match after_prefix(&s, "http://github.com/") {
            Some(v) => v,
            None => match after_prefix(&s, "git@github.com:") {
                Some(v) => v,
                None => match after_prefix(&s, "ssh://git@github.com/") {
                    Some(v) => v,
                    None => {
                        return None;
                    },
                },
            },
        },
    };
    let a = dropped_tail(&rest, Class::Is('/'));
    proof {
        reveal_strlit(".git");
    }
    let b = dropped_suffixes(&a, ".git");
    let parts = split_by(&b, Class::Is('/'));
    assert(views(parts@).len() == parts.len());
    if parts.len() == 2 && parts[0].len() > 0 && parts[1].len() > 0 {
        assert(views(parts@)[0] == parts@[0]@ && views(parts@)[1] == parts@[1]@);
        let mut out = crate::text::slice(&parts[0], 0, parts[0].len());
        out.push('/');
        append(&mut out, &parts[1]);
        proof {
            reveal_strlit("/");
            assert(parts@[0]@.subrange(0, parts@[0]@.len() as int) =~= parts@[0]@);
            assert(out@ =~= parts@[0]@ + "/"@ + parts@[1]@);
        }
        Some(text_of(&out))
    } else {
        None
    }
}

/// One workflow run of a tag, as `gh run list` reports it.
#[derive(Debug, Clone)]
pub struct Run {
    pub workflow_name: Option<String>,
    pub status: Option<String>,
    pub conclusion: Option<String>,
}

/// A run of the workflow that publishes: its name says so, in any case.
pub open spec fn publishes(r: Run) -> bool {
    match r.workflow_name {
        Some(n) => contains(lower_all(n@), "publish"@),
        None => false,
    }
}

/// The first run, newest first, that publishes.
pub open spec fn first_publish(runs: Seq<Run>) -> Option<Run>
    decreases runs.len(),
{
    if runs.len() == 0 {
        None
    } else if publishes(runs[0]) {
        Some(runs[0])
    } else {
        first_publish(runs.drop_first())
    }
}

/// What the publish runs of a tag add up to: the newest publish decides;
/// with none, the archives do.
pub open spec fn publish_outcome(runs: Seq<Run>, assets: nat) -> Delivery {
    match first_publish(runs) {
        None => if assets == 0 {
            Delivery::NoAssets
        } else {
            Delivery::Released
        },
        Some(r) => match (r.status, r.conclusion) {
            (Some(s), Some(c)) => if s@ == "completed"@ && c@ == "success"@ {
                Delivery::Published
            } else if s@ == "completed"@ {
                Delivery::PublishFailed
            } else {
                Delivery::PublishRunning
            },
            (Some(s), None) => if s@ == "completed"@ {
                Delivery::PublishFailed
            } else {
                Delivery::PublishRunning
            },
            _ => Delivery::PublishRunning,
        },
    }
}

fn is_text(o: &Option<String>, t: &str) -> (r: bool)
    ensures
        r == (match o {
            Some(s) => s@ == t@,
            None => false,
        }),
{
    match o {
        Some(s) => {
            let v = chars_of_string(s);
            crate::text::same_str(&v, t)
        },
        None => false,
    }
}

/// The state the publish runs of a tag add up to, newest run first.
pub fn publish_state(runs: &[Run], assets: usize) -> (r: Delivery)
    ensures
        r == publish_outcome(runs@, assets as nat),
{
    let mut i: usize = 0;
    assert(runs@.skip(0) =~= runs@);
    while i < runs.len()
        invariant
            i <= runs.len(),
            first_publish(runs@.skip(i as int)) == first_publish(runs@),
        decreases runs.len() - i,
    {
        assert(runs@.skip(i as int)[0] == runs@[i as int]);
        let is_publish = match &runs[i].workflow_name {
            Some(n) => {
                let low = lower_text(&chars_of_string(n));
                crate::text::has_text(&low, "publish")
            },
            None => false,
        };
        if is_publish {
            let r = &runs[i];
            let completed = is_text(&r.status, "completed");
            if completed && is_text(&r.conclusion, "success") {
                return Delivery::Published;
            } else if completed {
                return Delivery::PublishFailed;
            } else {
                return Delivery::PublishRunning;
            }
        }
        assert(runs@.skip(i as int).drop_first() =~= runs@.skip(i + 1));
        i = i + 1;
    }
    if assets == 0 {
        Delivery::NoAssets
    } else {
        Delivery::Released
    }
}

/// Why GitHub could not be asked, when it could not.
#[derive(Debug)]
pub enum Unread {
    /// No `gh` for this record: scratch, or not installed.
    NoGh,
    /// `gh` ran and could not answer - offline, signed out, rate limited.
    Failed(String),
}

/// What recording a release came to.
#[derive(Debug)]
pub struct Recorded {
    pub version: String,
    pub delivery: Delivery,
    pub registries: Vec<String>,
    /// Whether this is what closed the version.
    pub closed: bool,
}

/// A registry name that is not one.
#[derive(Debug, Clone)]
pub struct NotARegistry {
    pub name: String,
}

/// A registry name as the release engine gives it: trimmed, and refused
/// when it is empty or holds white space or a comma.
pub open spec fn registry_ok(name: Seq<char>) -> bool {
    let t = trim(name);
    t.len() > 0 && !crate::text::any_in(t, Class::Space) && !crate::text::any_in(t, Class::Is(','))
}

pub fn registry(name: &str) -> (r: Result<String, NotARegistry>)
    ensures
        registry_ok(name@) ==> (r matches Ok(t) && t@ == trim(name@)),
        !registry_ok(name@) ==> (r matches Err(e) && e.name@ == trim(name@)),
{
    let s = chars_of(name);
    let t = trimmed(&s);
    if t.len() == 0 || crate::text::any_of(&t, Class::Space) || crate::text::any_of(&t, Class::Is(',')) {
        Err(NotARegistry { name: text_of(&t) })
    } else {
        Ok(text_of(&t))
    }
}

/// A tag that names no version.
#[derive(Debug, Clone)]
pub struct NotAVersion {
    pub tag: String,
}

/// A version tag: trimmed, an optional `v`, then a number before the first
/// dot, and a dot somewhere.
pub open spec fn tag_ok(tag: Seq<char>) -> bool {
    let t = trim(tag);
    let digits = if starts_with(t, "v"@) {
        t.skip(1)
    } else {
        t
    };
    parsed(split_class(digits, Class::Is('.'))[0], 0, 4294967295) is Some && crate::text::any_in(
        digits,
        Class::Is('.'),
    )
}

/// A tag as the version it names; refused when it names none.
pub fn tag_version(tag: &str) -> (r: Result<String, NotAVersion>)
    ensures
        tag_ok(tag@) ==> (r matches Ok(t) && t@ == trim(tag@)),
        !tag_ok(tag@) ==> (r matches Err(e) && e.tag@ == trim(tag@)),
{
    let s = chars_of(tag);
    let t = trimmed(&s);
    proof {
        reveal_strlit("v");
    }
    let digits = match crate::text::stripped_prefix(&t, "v") {
        Some(d) => d,
        None => crate::text::slice(&t, 0, t.len()),
    };
    assert(t@.subrange(0, t@.len() as int) =~= t@);
    let parts = split_by(&digits, Class::Is('.'));
    assert(views(parts@)[0] == parts@[0]@);
    let number = crate::number::parse_in(&parts[0], 0, 4294967295);
    if number.is_some() && crate::text::any_of(&digits, Class::Is('.')) {
        Ok(text_of(&t))
    } else {
        Err(NotAVersion { tag: text_of(&t) })
    }
}

/// The line the history keeps for a release: what it reached, in the
/// project's words when the engine gave some.
pub open spec fn shipped_words(name: Seq<char>, release: bool, registries: Seq<Seq<char>>, text: Option<Seq<char>>) -> Seq<char> {
    let reached = if release {
        seq!["the release with its archives"@] + registries
    } else {
        registries
    };
    let composed = if reached.len() == 0 {
        name + " went out as a tag"@
    } else {
        name + " went out: "@ + crate::text::joined(reached, ", "@)
    };
    match text {
        Some(t) => if trim(t).len() > 0 {
            composed + "\n\n"@ + trim(t)
        } else {
            composed
        },
        None => composed,
    }
}

/// The body of the `shipped` event a release is recorded with.
pub fn shipped_body(name: &str, release: bool, registries: &[String], text: Option<&str>) -> (r: String)
    ensures
        r@ == shipped_words(
            name@,
            release,
            strings(registries@),
            match text {
                Some(t) => Some(t@),
                None => None,
            },
        ),
{
    let mut reached: Vec<Vec<char>> = Vec::new();
    if release {
        reached.push(chars_of("the release with its archives"));
    }
    let ghost start = views(reached@);
    let ghost regs = strings(registries@);
    for i in 0..registries.len()
        invariant
            regs == strings(registries@),
            views(reached@) == start + regs.take(i as int),
    {
        let ghost before = views(reached@);
        reached.push(chars_of_string(&registries[i]));
        assert(views(reached@) =~= before.push(registries@[i as int]@));
        assert(regs.take(i + 1) =~= regs.take(i as int).push(regs[i as int]));
    }
    assert(regs.take(registries.len() as int) =~= regs);
    proof {
        reveal_strlit("the release with its archives");
    }
    let ghost reach = if release {
        seq!["the release with its archives"@] + regs
    } else {
        regs
    };
    assert(views(reached@) =~= reach);
    let mut out = chars_of(name);
    if reached.len() == 0 {
        append_str(&mut out, " went out as a tag");
    } else {
        append_str(&mut out, " went out: ");
        let j = crate::text::join_with(&reached, ", ");
        append(&mut out, &j);
    }
    let ghost composed = out@;
    match text {
        Some(t) => {
            let tt = trimmed(&chars_of(t));
            if tt.len() > 0 {
                append_str(&mut out, "\n\n");
                append(&mut out, &tt);
            }
        },
        None => {},
    }
    text_of(&out)
}

/// Whether `gh release list` printed no release: nothing but brackets and
/// white space.
pub open spec fn lists_nothing(json: Seq<char>) -> bool {
    trim(drop_tail(crate::text::drop_lead(trim(json), Class::Is('[')), Class::Is(']'))).len() == 0
}

pub fn no_releases(json: &str) -> (r: bool)
    ensures
        r == lists_nothing(json@),
{
    let s = chars_of(json);
    let a = trimmed(&s);
    let b = crate::text::dropped_lead(&a, Class::Is('['));
    let c = dropped_tail(&b, Class::Is(']'));
    trimmed(&c).len() == 0
}

} // verus!
