//! The line as a graph: what a project is tied to, and when the two ends of
//! a pair have drifted apart.
//!
//! A pair is symmetric: two products ship one capability between them. A
//! consumer points at what it draws on, and a donor is the same tie written
//! from the other end. Only a pair can drift.
use vstd::prelude::*;
use crate::order::{compare_strings, sorted_by, stable_sort, text_order};
use crate::text::same_str;

verus! {

/// What a link says about two ends.
#[derive(Debug, Clone, Copy, PartialEq, Eq, Structural, PartialOrd, Ord)]
pub enum Kind {
    /// Two halves of one capability; neither ships alone.
    Pair,
    /// This end draws on the other.
    Consumer,
    /// The other end draws on this one.
    Donor,
}

/// The name a kind is written under.
pub open spec fn kind_name(k: Kind) -> Seq<char> {
    match k {
        Kind::Pair => "pair"@,
        Kind::Consumer => "consumer"@,
        Kind::Donor => "donor"@,
    }
}

/// The kind a name stands for.
pub open spec fn kind_named(s: Seq<char>) -> Option<Kind> {
    if s == "pair"@ {
        Some(Kind::Pair)
    } else if s == "consumer"@ {
        Some(Kind::Consumer)
    } else if s == "donor"@ {
        Some(Kind::Donor)
    } else {
        None
    }
}

/// The tie seen from the other end.
pub open spec fn flip(k: Kind) -> Kind {
    match k {
        Kind::Pair => Kind::Pair,
        Kind::Consumer => Kind::Donor,
        Kind::Donor => Kind::Consumer,
    }
}

impl Kind {
    pub fn as_str(self) -> (r: &'static str)
        ensures
            r@ == kind_name(self),
    {
        match self {
            Kind::Pair => "pair",
            Kind::Consumer => "consumer",
            Kind::Donor => "donor",
        }
    }

    pub fn parse(text: &str) -> (r: Option<Kind>)
        ensures
            r == kind_named(text@),
    {
        let t = crate::text::chars_of(text);
        proof {
            reveal_strlit("pair");
            reveal_strlit("consumer");
            reveal_strlit("donor");
        }
        if same_str(&t, "pair") {
            Some(Kind::Pair)
        } else if same_str(&t, "consumer") {
            Some(Kind::Consumer)
        } else if same_str(&t, "donor") {
            Some(Kind::Donor)
        } else {
            None
        }
    }

    /// Whether the two ends stand as equals.
    pub fn symmetric(self) -> (r: bool)
        ensures
            r == (self == Kind::Pair),
    {
        match self {
            Kind::Pair => true,
            _ => false,
        }
    }

    /// The same tie seen from the other end.
    pub fn flipped(self) -> (r: Kind)
        ensures
            r == flip(self),
    {
        match self {
            Kind::Pair => Kind::Pair,
            Kind::Consumer => Kind::Donor,
            Kind::Donor => Kind::Consumer,
        }
    }
}

/// A kind's name reads back as the same kind, and no two kinds share a name.
pub proof fn law_kind_names_read_back(k: Kind, j: Kind)
    ensures
        kind_named(kind_name(k)) == Some(k),
        kind_name(k) == kind_name(j) <==> k == j,
{
    reveal_strlit("pair");
    reveal_strlit("consumer");
    reveal_strlit("donor");
    assert(kind_name(Kind::Pair).len() == 4);
    assert(kind_name(Kind::Consumer).len() == 8);
    assert(kind_name(Kind::Donor).len() == 5);
}

/// Turning a tie round twice gives it back, and only a pair reads the same
/// from both ends.
pub proof fn law_flip(k: Kind)
    ensures
        flip(flip(k)) == k,
        flip(k) == k <==> k == Kind::Pair,
{
}

/// One end of a link, as the record holds it.
#[derive(Debug, Clone)]
pub struct End {
    pub project: String,
    /// The version anchored on this side, when one is.
    pub version: Option<String>,
    /// Whether that version has a tag. `None` when no version is anchored.
    pub shipped: Option<bool>,
}

/// A link, read from the side of the project that asked for it: `near` is
/// always the asking project.
#[derive(Debug, Clone)]
pub struct Link {
    pub id: i64,
    pub kind: Kind,
    pub near: End,
    pub far: End,
    pub note: Option<String>,
}

/// Why a pair is being reported; the first outranks the second.
#[derive(Debug, Clone, Copy, PartialEq, Eq, Structural, PartialOrd, Ord)]
pub enum Drift {
    /// One half is tagged and the other is not.
    ShippedAlone,
    /// Neither half is out, but one end has moved on by several versions.
    RunAhead,
}

pub open spec fn rank(d: Drift) -> int {
    match d {
        Drift::ShippedAlone => 0,
        Drift::RunAhead => 1,
    }
}

/// A pair whose halves have parted company.
#[derive(Debug, Clone)]
pub struct Parted {
    pub drift: Drift,
    /// The end that went on ahead, or shipped.
    pub ahead: End,
    /// The end left behind.
    pub behind: End,
    /// Versions between the two, for the drift measured in versions.
    pub versions: Option<u32>,
    pub note: Option<String>,
}

/// How far one half of a pair may run ahead before the record says so.
pub const AHEAD_VERSIONS: u32 = 2;

/// A pair as the check sees it: the link, and how far each end has moved on
/// past the version anchored to it.
#[derive(Debug, Clone)]
pub struct Pair {
    pub link: Link,
    pub near_ahead: u32,
    pub far_ahead: u32,
}

/// What one pair reports, if anything.
pub open spec fn drift_of(p: Pair) -> Option<Parted> {
    let near = p.link.near;
    let far = p.link.far;
    if p.link.kind != Kind::Pair {
        None
    } else {
        match (near.shipped, far.shipped) {
            (Some(true), Some(false)) => Some(
                Parted { drift: Drift::ShippedAlone, ahead: near, behind: far, versions: None, note: p.link.note },
            ),
            (Some(false), Some(true)) => Some(
                Parted { drift: Drift::ShippedAlone, ahead: far, behind: near, versions: None, note: p.link.note },
            ),
            (Some(false), Some(false)) => {
                if p.near_ahead >= p.far_ahead + AHEAD_VERSIONS {
                    Some(
                        Parted {
                            drift: Drift::RunAhead,
                            ahead: near,
                            behind: far,
                            versions: Some((p.near_ahead - p.far_ahead) as u32),
                            note: p.link.note,
                        },
                    )
                } else if p.far_ahead >= p.near_ahead + AHEAD_VERSIONS {
                    Some(
                        Parted {
                            drift: Drift::RunAhead,
                            ahead: far,
                            behind: near,
                            versions: Some((p.far_ahead - p.near_ahead) as u32),
                            note: p.link.note,
                        },
                    )
                } else {
                    None
                }
            },
            _ => None,
        }
    }
}

/// What a list of pairs reports, in the order the pairs come.
pub open spec fn drifts(s: Seq<Pair>) -> Seq<Parted>
    decreases s.len(),
{
    if s.len() == 0 {
        Seq::empty()
    } else {
        let rest = drifts(s.drop_last());
        match drift_of(s.last()) {
            Some(d) => rest.push(d),
            None => rest,
        }
    }
}

/// `a` is greater than `b` where a missing count sorts below any count.
pub open spec fn more_versions(a: Option<u32>, b: Option<u32>) -> bool {
    match (a, b) {
        (Some(x), Some(y)) => x > y,
        (Some(_), None) => true,
        _ => false,
    }
}

/// The order of the report: the loud drift first, then the widest gap,
/// then the project that went ahead by name.
pub open spec fn reported_before(a: Parted, b: Parted) -> bool {
    ||| rank(a.drift) < rank(b.drift)
    ||| rank(a.drift) == rank(b.drift) && more_versions(a.versions, b.versions)
    ||| rank(a.drift) == rank(b.drift) && a.versions == b.versions && text_order(
        a.ahead.project@,
        b.ahead.project@,
    ) < 0
}

pub open spec fn report_order() -> spec_fn(Parted, Parted) -> bool {
    |a: Parted, b: Parted| reported_before(a, b)
}

fn copy_text(s: &Option<String>) -> (r: Option<String>)
    ensures
        r == *s,
{
    match s {
        Some(t) => Some(t.clone()),
        None => None,
    }
}

fn copy_end(e: &End) -> (r: End)
    ensures
        r == *e,
{
    End { project: e.project.clone(), version: copy_text(&e.version), shipped: e.shipped }
}

fn drift_rank(d: Drift) -> (r: u8)
    ensures
        r == rank(d),
{
    match d {
        Drift::ShippedAlone => 0,
        Drift::RunAhead => 1,
    }
}

fn comes_before(a: &Parted, b: &Parted) -> (r: bool)
    ensures
        r == reported_before(*a, *b),
{
    let ra = drift_rank(a.drift);
    let rb = drift_rank(b.drift);
    if ra != rb {
        return ra < rb;
    }
    let more = match (a.versions, b.versions) {
        (Some(x), Some(y)) => x > y,
        (Some(_), None) => true,
        _ => false,
    };
    if more {
        return true;
    }
    let same = match (a.versions, b.versions) {
        (Some(x), Some(y)) => x == y,
        (None, None) => true,
        _ => false,
    };
    if !same {
        return false;
    }
    compare_strings(&a.ahead.project, &b.ahead.project) < 0
}

fn drift_for(p: &Pair) -> (r: Option<Parted>)
    ensures
        r == drift_of(*p),
{
    let near = &p.link.near;
    let far = &p.link.far;
    match p.link.kind {
        Kind::Pair => {},
        _ => {
            return None;
        },
    }
    match (near.shipped, far.shipped) {
        (Some(true), Some(false)) => Some(
            Parted {
                drift: Drift::ShippedAlone,
                ahead: copy_end(near),
                behind: copy_end(far),
                versions: None,
                note: copy_text(&p.link.note),
            },
        ),
        (Some(false), Some(true)) => Some(
            Parted {
                drift: Drift::ShippedAlone,
                ahead: copy_end(far),
                behind: copy_end(near),
                versions: None,
                note: copy_text(&p.link.note),
            },
        ),
        (Some(false), Some(false)) => {
            let (ahead, behind, by) = if p.near_ahead >= p.far_ahead {
                (near, far, p.near_ahead - p.far_ahead)
            } else {
                (far, near, p.far_ahead - p.near_ahead)
            };
            if by >= AHEAD_VERSIONS {
                Some(
                    Parted {
                        drift: Drift::RunAhead,
                        ahead: copy_end(ahead),
                        behind: copy_end(behind),
                        versions: Some(by),
                        note: copy_text(&p.link.note),
                    },
                )
            } else {
                None
            }
        },
        _ => None,
    }
}

/// Reports the pairs whose halves have parted company: only pairs, one
/// tagged and one not, or neither tagged with one end at least
/// `AHEAD_VERSIONS` ahead of the other; the loud drift first, then the
/// widest gap, then by the name of the end that went ahead, equal entries
/// in the order of the pairs.
pub fn parted(pairs: &[Pair]) -> (r: Vec<Parted>)
    ensures
        r@ == stable_sort(drifts(pairs@), report_order()),
{
    let mut found: Vec<Parted> = Vec::new();
    for i in 0..pairs.len()
        invariant
            found@ == drifts(pairs@.take(i as int)),
    {
        assert(pairs@.take(i + 1).drop_last() =~= pairs@.take(i as int));
        match drift_for(&pairs[i]) {
            Some(d) => found.push(d),
            None => {},
        }
    }
    assert(pairs@.take(pairs.len() as int) =~= pairs@);
    proof {
        assert forall|a: &Parted, b: &Parted, r: bool| call_ensures(comes_before, (a, b), r) implies r == (report_order())(*a, *b) by {}
    }
    sorted_by(found, &comes_before, Ghost(report_order()))
}

/// The same link written from the other end.
pub open spec fn from_far_end(p: Pair) -> Pair {
    Pair {
        link: Link { id: p.link.id, kind: flip(p.link.kind), near: p.link.far, far: p.link.near, note: p.link.note },
        near_ahead: p.far_ahead,
        far_ahead: p.near_ahead,
    }
}

/// The end a pair was recorded from does not change what it reports.
pub proof fn law_either_end_reads_the_same(p: Pair)
    ensures
        drift_of(from_far_end(p)) == drift_of(p),
{
}

/// The report reads in its order: no drift is listed after one it should
/// come before (the loud drift first, then the widest gap, then by name),
/// and every drift the pairs show is in it, once.
pub proof fn law_report_is_in_order(pairs: Seq<Pair>)
    ensures
        crate::order::in_order(stable_sort(drifts(pairs), report_order()), report_order()),
        stable_sort(drifts(pairs), report_order()).to_multiset() == drifts(pairs).to_multiset(),
{
    assert forall|a: Parted| !#[trigger] (report_order())(a, a) by {
        crate::order::lemma_text_order(a.ahead.project@, a.ahead.project@, a.ahead.project@);
    }
    assert forall|a: Parted, b: Parted, c: Parted| #[trigger] (report_order())(a, b) && #[trigger] (report_order())(
        b,
        c,
    ) implies (report_order())(a, c) by {
        crate::order::lemma_text_order(a.ahead.project@, b.ahead.project@, c.ahead.project@);
    }
    crate::order::law_sorted_is_in_order(drifts(pairs), report_order());
}

} // verus!
