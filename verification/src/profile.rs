//! Profiles: one binary, several ways of working. A profile says what the
//! unit of work is and where its material lives; the config names the
//! profiles and the one in use. Reading and writing the config file, and
//! where a profile's files are on disk, is the program's work.
use vstd::prelude::*;
use crate::order::{compare_strings, lemma_text_order, text_order};
use crate::text::{chars_of, chars_of_string, lit, text_of, trim, trimmed};

verus! {

/// What the unit of work is.
#[derive(Debug, Clone, Copy, PartialEq, Eq, Structural, Default)]
pub enum Kind {
    /// A version that ends in a tag; projects are the products of a line.
    #[default]
    Line,
    /// A ticket with an id, worked on branches across several repositories.
    Tickets,
}

impl Kind {
    pub fn as_str(self) -> (r: &'static str)
        ensures
            r@ == (match self {
                Kind::Line => "line"@,
                Kind::Tickets => "tickets"@,
            }),
    {
        match self {
            Kind::Line => "line",
            Kind::Tickets => "tickets",
        }
    }
}

/// Names the profile to use, over the one the config points at.
pub const PROFILE_ENV: &'static str = "RIGGER_PROFILE";
pub const CONFIG_FILE: &'static str = "config.toml";
pub const DEFAULT: &'static str = "line";
pub const DB_FILE: &'static str = "rigger.db";
/// What the database rigger kept before profiles is renamed to, once moved.
pub const LEGACY_KEPT_AS: &'static str = "rigger.db.before-profiles";

/// What a profile says about itself. Directories are held as the text of
/// their paths.
#[derive(Debug, Clone, PartialEq, Eq)]
pub struct Profile {
    pub kind: Kind,
    /// Directories whose children are repositories; what `adopt` walks
    /// when it is not told where.
    pub roots: Vec<String>,
    /// The directory whose children are hubs, one per project name.
    pub hubs: Option<String>,
    /// How a ticket id is spelt, as a regular expression: `[A-Z]{2,8}-\d+`.
    pub id_pattern: Option<String>,
    /// Where the trays of the cards are: the material that arrives for a
    /// task. `trays/` in the profile's directory when it is not said.
    pub trays: Option<String>,
}

/// A profile that says nothing but that its work is a line of versions.
pub open spec fn plain_profile(p: Profile) -> bool {
    &&& p.kind == Kind::Line
    &&& p.roots@.len() == 0
    &&& p.hubs is None
    &&& p.id_pattern is None
    &&& p.trays is None
}

impl Default for Profile {
    fn default() -> (r: Profile)
        ensures
            plain_profile(r),
    {
        Profile { kind: Kind::Line, roots: Vec::new(), hubs: None, id_pattern: None, trays: None }
    }
}

/// The profiles by name, and the one every command uses. The names are
/// kept in the order of their text, each once, as a map of them is.
pub struct Config {
    /// The profile every command uses unless `RIGGER_PROFILE` says otherwise.
    pub current: String,
    pub profiles: Vec<(String, Profile)>,
}

/// The names of a list of profiles.
pub open spec fn names_of(s: Seq<(String, Profile)>) -> Seq<Seq<char>> {
    s.map_values(|e: (String, Profile)| e.0@)
}

/// Names in strictly rising order: each once, as the keys of a map.
pub open spec fn rising(ns: Seq<Seq<char>>) -> bool {
    forall|i: int, j: int| 0 <= i < j < ns.len() ==> text_order(#[trigger] ns[i], #[trigger] ns[j]) < 0
}

/// The profiles as a map from name to profile.
pub open spec fn profile_map(s: Seq<(String, Profile)>) -> Map<Seq<char>, Profile>
    decreases s.len(),
{
    if s.len() == 0 {
        Map::empty()
    } else {
        profile_map(s.drop_last()).insert(s.last().0@, s.last().1)
    }
}

impl Config {
    pub open spec fn wf(&self) -> bool {
        rising(names_of(self.profiles@))
    }

    /// The profiles by name.
    pub open spec fn map(&self) -> Map<Seq<char>, Profile> {
        profile_map(self.profiles@)
    }
}

proof fn lemma_profile_map(s: Seq<(String, Profile)>)
    requires
        rising(names_of(s)),
    ensures
        forall|k: Seq<char>| #[trigger] profile_map(s).dom().contains(k) <==> exists|i: int| 0 <= i < s.len() && s[i].0@ == k,
        forall|i: int| 0 <= i < s.len() ==> #[trigger] profile_map(s)[s[i].0@] == s[i].1,
    decreases s.len(),
{
    if s.len() > 0 {
        let t = s.drop_last();
        assert forall|i: int, j: int| 0 <= i < j < names_of(t).len() implies text_order(
            #[trigger] names_of(t)[i],
            #[trigger] names_of(t)[j],
        ) < 0 by {
            assert(names_of(t)[i] == names_of(s)[i] && names_of(t)[j] == names_of(s)[j]);
        }
        lemma_profile_map(t);
        let last = s.len() - 1;
        assert forall|k: Seq<char>| #[trigger] profile_map(s).dom().contains(k) <==> exists|i: int| 0 <= i < s.len() && s[i].0@ == k by {
            if profile_map(t).dom().contains(k) {
                let i = choose|i: int| 0 <= i < t.len() && t[i].0@ == k;
                assert(s[i] == t[i]);
            }
            if exists|i: int| 0 <= i < s.len() && s[i].0@ == k {
                let i = choose|i: int| 0 <= i < s.len() && s[i].0@ == k;
                if i < last {
                    assert(t[i] == s[i]);
                }
            }
        }
        assert(profile_map(s) == profile_map(t).insert(s[last].0@, s[last].1));
        assert forall|i: int| 0 <= i < s.len() implies #[trigger] profile_map(s)[s[i].0@] == s[i].1 by {
            if i < last {
                assert(t[i] == s[i]);
                assert(profile_map(t)[t[i].0@] == t[i].1);
                assert(names_of(s)[i] == s[i].0@ && names_of(s)[last] == s[last].0@);
                lemma_text_order(s[i].0@, s[last].0@, s[last].0@);
                assert(s[i].0@ != s[last].0@);
            }
        }
    }
}

impl Config {
    /// A config with the one profile `line`, in use: what a rigger that
    /// has never been told about profiles behaves as.
    pub fn fresh() -> (r: Config)
        ensures
            r.wf(),
            r.current@ == DEFAULT@,
            r.map().dom() == set![DEFAULT@],
            plain_profile(r.map()[DEFAULT@]),
    {
        let mut profiles: Vec<(String, Profile)> = Vec::new();
        profiles.push((text_of(&lit(DEFAULT)), Profile::default()));
        let r = Config { current: text_of(&lit(DEFAULT)), profiles };
        assert(r.profiles@.drop_last() =~= Seq::<(String, Profile)>::empty());
        assert(profile_map(Seq::<(String, Profile)>::empty()) == Map::<Seq<char>, Profile>::empty());
        assert(r.profiles@.last().0@ == DEFAULT@);
        assert(r.map() == Map::<Seq<char>, Profile>::empty().insert(DEFAULT@, r.profiles@.last().1));
        assert(r.map().dom() =~= set![DEFAULT@]);
        r
    }

    /// Where a name stands among the profiles: its index when it is there,
    /// else where it would go to keep the names in order.
    fn place(&self, name: &str) -> (r: (usize, bool))
        requires
            self.wf(),
        ensures
            r.0 <= self.profiles.len(),
            r.1 <==> r.0 < self.profiles.len() && self.profiles@[r.0 as int].0@ == name@,
            forall|i: int| 0 <= i < r.0 ==> text_order(#[trigger] self.profiles@[i].0@, name@) < 0,
            forall|i: int| r.0 <= i < self.profiles.len() ==> text_order(name@, #[trigger] self.profiles@[i].0@) <= 0,
    {
        let key = text_of(&chars_of(name));
        let mut k: usize = 0;
        while k < self.profiles.len()
            invariant
                k <= self.profiles.len(),
                key@ == name@,
                self.wf(),
                forall|i: int| 0 <= i < k ==> text_order(#[trigger] self.profiles@[i].0@, name@) < 0,
            decreases self.profiles.len() - k,
        {
            let c = compare_strings(&self.profiles[k].0, &key);
            if c >= 0 {
                proof {
                    lemma_text_order(self.profiles@[k as int].0@, name@, name@);
                    assert forall|i: int| k <= i < self.profiles.len() implies text_order(
                        name@,
                        #[trigger] self.profiles@[i].0@,
                    ) <= 0 by {
                        if i > k {
                            assert(names_of(self.profiles@)[k as int] == self.profiles@[k as int].0@);
                            assert(names_of(self.profiles@)[i] == self.profiles@[i].0@);
                            lemma_text_order(name@, self.profiles@[k as int].0@, self.profiles@[i].0@);
                            lemma_text_order(self.profiles@[k as int].0@, self.profiles@[i].0@, name@);
                        }
                    }
                }
                return (k, c == 0);
            }
            k = k + 1;
        }
        (k, false)
    }

    /// The profile of a name, when there is one.
    pub fn get(&self, name: &str) -> (r: Option<&Profile>)
        requires
            self.wf(),
        ensures
            r is Some <==> self.map().dom().contains(name@),
            r matches Some(p) ==> *p == self.map()[name@],
    {
        proof {
            lemma_profile_map(self.profiles@);
        }
        let (k, found) = self.place(name);
        if found {
            Some(&self.profiles[k].1)
        } else {
            proof {
                assert forall|i: int| 0 <= i < self.profiles.len() implies self.profiles@[i].0@ != name@ by {
                    if i < k {
                        lemma_text_order(self.profiles@[i].0@, name@, name@);
                    } else {
                        if i > k && self.profiles@[i].0@ == name@ {
                            assert(names_of(self.profiles@)[k as int] == self.profiles@[k as int].0@);
                            assert(names_of(self.profiles@)[i] == self.profiles@[i].0@);
                            lemma_text_order(name@, self.profiles@[k as int].0@, name@);
                        }
                    }
                }
            }
            None
        }
    }

    /// Puts a profile under a name, over the one it had: the map of
    /// profiles gains the name, or has its profile replaced.
    pub fn insert(&mut self, name: &str, profile: Profile)
        requires
            old(self).wf(),
        ensures
            final(self).wf(),
            final(self).map() == old(self).map().insert(name@, profile),
            final(self).current == old(self).current,
    {
        proof {
            lemma_profile_map(self.profiles@);
        }
        let (k, found) = self.place(name);
        let ghost before = self.profiles@;
        let key = text_of(&chars_of(name));
        if found {
            self.profiles.set(k, (key, profile));
        } else {
            self.profiles.insert(k, (key, profile));
        }
        let ghost after = self.profiles@;
        assert(!found ==> forall|i: int| 0 <= i < before.len() ==> before[i].0@ != name@) by {
            if !found {
                assert forall|i: int| 0 <= i < before.len() implies before[i].0@ != name@ by {
                    if i < k {
                        lemma_text_order(before[i].0@, name@, name@);
                    } else if i > k && before[i].0@ == name@ {
                        assert(names_of(before)[k as int] == before[k as int].0@);
                        assert(names_of(before)[i] == before[i].0@);
                        lemma_text_order(name@, before[k as int].0@, name@);
                    }
                }
            }
        }
        assert(rising(names_of(after))) by {
            assert forall|i: int, j: int| 0 <= i < j < names_of(after).len() implies text_order(
                #[trigger] names_of(after)[i],
                #[trigger] names_of(after)[j],
            ) < 0 by {
                assert(names_of(after)[i] == after[i].0@ && names_of(after)[j] == after[j].0@);
                if found {
                    assert(names_of(before)[i] == before[i].0@ && names_of(before)[j] == before[j].0@);
                    if i == k {
                        assert(after[i].0@ == before[i].0@);
                    } else if j == k {
                        assert(after[j].0@ == before[j].0@);
                    }
                } else {
                    if j < k {
                        assert(after[i] == before[i] && after[j] == before[j]);
                        assert(names_of(before)[i] == before[i].0@ && names_of(before)[j] == before[j].0@);
                    } else if i > k {
                        assert(after[i] == before[i - 1] && after[j] == before[j - 1]);
                        assert(names_of(before)[i - 1] == before[i - 1].0@ && names_of(before)[j - 1] == before[j - 1].0@);
                    } else if i == k {
                        assert(after[j] == before[j - 1]);
                        assert(text_order(name@, before[j - 1].0@) <= 0);
                        assert(before[j - 1].0@ != name@);
                        lemma_text_order(name@, before[j - 1].0@, name@);
                    } else if j == k {
                        assert(after[i] == before[i]);
                    } else {
                        assert(i < k && k < j);
                        assert(after[i] == before[i] && after[j] == before[j - 1]);
                        lemma_text_order(before[i].0@, name@, before[j - 1].0@);
                        assert(text_order(name@, before[j - 1].0@) <= 0);
                        if text_order(name@, before[j - 1].0@) == 0 {
                            lemma_text_order(name@, before[j - 1].0@, name@);
                        }
                    }
                }
            }
        }
        proof {
            lemma_profile_map(after);
            let m = old(self).map().insert(name@, profile);
            assert forall|n: Seq<char>| #[trigger] profile_map(after).dom().contains(n) <==> m.dom().contains(n) by {
                if profile_map(after).dom().contains(n) {
                    let i = choose|i: int| 0 <= i < after.len() && after[i].0@ == n;
                    if n != name@ {
                        if found {
                            assert(after[i] == before[i]);
                        } else if i < k {
                            assert(after[i] == before[i]);
                        } else {
                            assert(after[i] == before[i - 1]);
                        }
                    }
                }
                if m.dom().contains(n) && n != name@ {
                    let i = choose|i: int| 0 <= i < before.len() && before[i].0@ == n;
                    if found || i < k {
                        assert(after[i] == before[i]);
                    } else {
                        assert(after[i + 1] == before[i]);
                    }
                }
                if n == name@ {
                    assert(after[k as int].0@ == name@);
                }
            }
            assert forall|n: Seq<char>| #[trigger] profile_map(after).dom().contains(n) implies profile_map(after)[n] == m[n] by {
                let i = choose|i: int| 0 <= i < after.len() && after[i].0@ == n;
                if n == name@ {
                    assert(after[k as int].0@ == name@);
                    assert(profile_map(after)[after[k as int].0@] == after[k as int].1);
                } else {
                    if found || i < k {
                        assert(after[i] == before[i]);
                    } else {
                        assert(after[i] == before[i - 1]);
                    }
                }
            }
            assert(profile_map(after) =~= m);
        }
    }

    /// The name of the profile in use: what `RIGGER_PROFILE` says, when it
    /// says anything but white space, else the config's.
    pub fn current_name(&self, from_env: Option<&str>) -> (r: String)
        ensures
            r@ == (match from_env {
                Some(n) => if trim(n@).len() > 0 {
                    n@
                } else {
                    self.current@
                },
                None => self.current@,
            }),
    {
        match from_env {
            Some(n) => {
                let t = trimmed(&chars_of(n));
                if t.len() > 0 {
                    text_of(&chars_of(n))
                } else {
                    text_of(&chars_of_string(&self.current))
                }
            },
            None => text_of(&chars_of_string(&self.current)),
        }
    }

    /// The profile in use, with its name; a name the config has no profile
    /// under is refused.
    pub fn current(&self, from_env: Option<&str>) -> (r: Result<(String, &Profile), NoProfile>)
        requires
            self.wf(),
        ensures
            ({
                let name = match from_env {
                    Some(n) => if trim(n@).len() > 0 {
                        n@
                    } else {
                        self.current@
                    },
                    None => self.current@,
                };
                match r {
                    Ok((n, p)) => n@ == name && self.map().dom().contains(name) && *p == self.map()[name],
                    Err(e) => e.name@ == name && !self.map().dom().contains(name),
                }
            }),
    {
        let name = self.current_name(from_env);
        match self.get(name.as_str()) {
            Some(p) => Ok((name, p)),
            None => Err(NoProfile { name }),
        }
    }
}

/// A profile that was asked for by a name the config does not have.
pub struct NoProfile {
    pub name: String,
}

impl NoProfile {
    pub open spec fn message_text(name: Seq<char>) -> Seq<char> {
        "no profile named '"@ + name + "'; see `rigger profile list`"@
    }

    pub fn message(&self) -> (r: String)
        ensures
            r@ == Self::message_text(self.name@),
    {
        let mut out = lit("no profile named '");
        crate::text::append(&mut out, &chars_of_string(&self.name));
        crate::text::append_str(&mut out, "'; see `rigger profile list`");
        text_of(&out)
    }
}

/// Whether a text can name a profile: one word, without slashes.
pub open spec fn is_profile_name(name: Seq<char>) -> bool {
    trim(name).len() > 0 && !name.contains('/') && !name.contains('\\') && !name.contains(' ')
}

/// Why a profile could not be added under a name.
pub enum AddRefused {
    /// The name is not one word without slashes.
    NotAName(String),
    /// There is a profile of that name already.
    Taken(String),
}

impl AddRefused {
    pub open spec fn message_text(&self) -> Seq<char> {
        match self {
            AddRefused::NotAName(n) => "a profile name is one word, without slashes: '"@ + n@ + "' is not"@,
            AddRefused::Taken(n) => "a profile named '"@ + n@ + "' already exists; see `rigger profile show "@ + n@
                + "`"@,
        }
    }

    pub fn message(&self) -> (r: String)
        ensures
            r@ == self.message_text(),
    {
        match self {
            AddRefused::NotAName(n) => {
                let mut out = lit("a profile name is one word, without slashes: '");
                crate::text::append(&mut out, &chars_of_string(n));
                crate::text::append_str(&mut out, "' is not");
                text_of(&out)
            },
            AddRefused::Taken(n) => {
                let mut out = lit("a profile named '");
                crate::text::append(&mut out, &chars_of_string(n));
                crate::text::append_str(&mut out, "' already exists; see `rigger profile show ");
                crate::text::append(&mut out, &chars_of_string(n));
                crate::text::append_str(&mut out, "`");
                text_of(&out)
            },
        }
    }
}

fn holds(s: &Vec<char>, c: char) -> (r: bool)
    ensures
        r == s@.contains(c),
{
    let mut i: usize = 0;
    while i < s.len()
        invariant
            i <= s.len(),
            forall|j: int| 0 <= j < i ==> s@[j] != c,
        decreases s.len() - i,
    {
        if s[i] == c {
            assert(s@[i as int] == c);
            return true;
        }
        i = i + 1;
    }
    false
}

/// Nothing was given to change about a profile.
pub struct NothingToSet;

impl NothingToSet {
    pub fn message(&self) -> (r: &'static str)
        ensures
            r@ == "nothing to set; give --root, --hubs, --id-pattern or --inbox"@,
    {
        "nothing to set; give --root, --hubs, --id-pattern or --inbox"
    }
}

impl Profile {
    /// Changes what a profile says about itself. Only the fields given
    /// change; the roots given replace the roots it had, because a list
    /// appended to can never be shortened. Given nothing, it is refused and
    /// nothing changes.
    pub fn set(
        &mut self,
        roots: Vec<String>,
        hubs: Option<String>,
        id_pattern: Option<String>,
        trays: Option<String>,
    ) -> (r: Result<(), NothingToSet>)
        ensures
            r is Err <==> (roots@.len() == 0 && hubs is None && id_pattern is None && trays is None),
            r is Err ==> *final(self) == *old(self),
            r is Ok ==> {
                &&& final(self).kind == old(self).kind
                &&& final(self).roots@ == (if roots@.len() == 0 {
                    old(self).roots@
                } else {
                    roots@
                })
                &&& final(self).hubs == (if hubs is Some {
                    hubs
                } else {
                    old(self).hubs
                })
                &&& final(self).id_pattern == (if id_pattern is Some {
                    id_pattern
                } else {
                    old(self).id_pattern
                })
                &&& final(self).trays == (if trays is Some {
                    trays
                } else {
                    old(self).trays
                })
            },
    {
        if roots.len() == 0 && hubs.is_none() && id_pattern.is_none() && trays.is_none() {
            return Err(NothingToSet);
        }
        if roots.len() > 0 {
            self.roots = roots;
        }
        if hubs.is_some() {
            self.hubs = hubs;
        }
        if id_pattern.is_some() {
            self.id_pattern = id_pattern;
        }
        if trays.is_some() {
            self.trays = trays;
        }
        Ok(())
    }
}

impl Config {
    /// Whether a profile can be added under a name: the name has to be one
    /// word without slashes, and not taken.
    pub fn can_add(&self, name: &str) -> (r: Result<(), AddRefused>)
        requires
            self.wf(),
        ensures
            r is Ok <==> is_profile_name(name@) && !self.map().dom().contains(name@),
            r matches Err(AddRefused::NotAName(n)) ==> n@ == name@ && !is_profile_name(name@),
            r matches Err(AddRefused::Taken(n)) ==> n@ == name@ && is_profile_name(name@)
                && self.map().dom().contains(name@),
    {
        let s = chars_of(name);
        let t = trimmed(&s);
        if t.len() == 0 || holds(&s, '/') || holds(&s, '\\') || holds(&s, ' ') {
            return Err(AddRefused::NotAName(text_of(&s)));
        }
        if self.get(name).is_some() {
            return Err(AddRefused::Taken(text_of(&s)));
        }
        Ok(())
    }

    /// Adds a profile under a name, in use from now on when `use_it`.
    pub fn add(&mut self, name: &str, profile: Profile, use_it: bool)
        requires
            old(self).wf(),
        ensures
            final(self).wf(),
            final(self).map() == old(self).map().insert(name@, profile),
            final(self).current@ == (if use_it {
                name@
            } else {
                old(self).current@
            }),
    {
        self.insert(name, profile);
        if use_it {
            self.current = text_of(&chars_of(name));
        }
    }

    /// Makes a profile the one every command uses; a name without a profile
    /// is refused and nothing changes.
    pub fn use_profile(&mut self, name: &str) -> (r: Result<(), NoProfile>)
        requires
            old(self).wf(),
        ensures
            final(self).wf(),
            final(self).map() == old(self).map(),
            r is Ok <==> old(self).map().dom().contains(name@),
            r is Ok ==> final(self).current@ == name@,
            r matches Err(e) ==> e.name@ == name@ && final(self).current == old(self).current,
    {
        if self.get(name).is_none() {
            return Err(NoProfile { name: text_of(&chars_of(name)) });
        }
        self.current = text_of(&chars_of(name));
        Ok(())
    }
}

} // verus!
