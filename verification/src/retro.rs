//! The look back: what the plan said, what the tags say, and where the two
//! parted company - over a window of weeks, as a report the owner reads.
//! Gathering what shipped and what was aimed is the program's work; how
//! long the window is and what the report says is decided here.
use vstd::prelude::*;
use crate::calendar::{pad, push_pad, tier_text, week_text, weeks_late, weeks_late_text, Tier, Week};
use crate::context::{plural_text, push_plural};
use crate::text::{append, append_str, chars_of_string, decimal, lit, push_decimal, strings, text_of};

verus! {

/// Why a window cannot be looked back over.
#[derive(Debug, Clone, Copy, PartialEq, Eq)]
pub enum RetroError {
    /// A window of no weeks.
    NoWeeks,
}

impl RetroError {
    pub fn message(&self) -> (r: String)
        ensures
            r@ == "a retro of 0 weeks looks back at nothing; ask for at least one"@,
    {
        text_of(&lit("a retro of 0 weeks looks back at nothing; ask for at least one"))
    }
}

/// How many weeks a retro looks back over: a cycle's worth when asked for
/// one, the weeks given, or four - long enough to hold more than one
/// release of a tier A product, short enough that a Monday can read it.
pub fn retro_weeks(cycle: bool, weeks: Option<u32>, cycle_weeks: u32) -> (r: Result<u32, RetroError>)
    ensures
        cycle ==> r == Ok::<u32, RetroError>(cycle_weeks),
        !cycle && weeks == Some(0u32) ==> r == Err::<u32, RetroError>(RetroError::NoWeeks),
        (!cycle && (weeks matches Some(n) && n > 0)) ==> r == Ok::<u32, RetroError>(weeks->0),
        (!cycle && weeks is None) ==> r == Ok::<u32, RetroError>(4),
{
    match (cycle, weeks) {
        (true, _) => Ok(cycle_weeks),
        (false, Some(0)) => Err(RetroError::NoWeeks),
        (false, Some(n)) => Ok(n),
        (false, None) => Ok(4),
    }
}

/// The first week of a window of `weeks` weeks that ends with `to`.
pub fn retro_from(to: Week, weeks: u32) -> (r: Week)
    requires
        weeks >= 1,
    ensures
        r == crate::calendar::week_plus(to, -(weeks - 1)),
{
    let back: i64 = weeks as i64 - 1;
    to.plus(-back)
}

/// A version that shipped in the window: where the tag put it, where it
/// was aimed, and by how many weeks it slipped.
#[derive(Debug, Clone)]
pub struct ShippedItem {
    pub project: String,
    pub version: String,
    pub week: Week,
    pub planned: Option<Week>,
    pub slip: Option<i64>,
}

/// A version aimed at the window that did not ship, and how late it stands
/// at the window's end.
#[derive(Debug, Clone)]
pub struct MissedItem {
    pub project: String,
    pub version: String,
    pub planned: Week,
    pub weeks: i64,
}

/// A project over the window: its tier, what it shipped, how much of that
/// was planned, what its tier asked for, and what it missed.
#[derive(Debug, Clone)]
pub struct Standing {
    pub project: String,
    pub tier: Option<Tier>,
    pub shipped: u64,
    pub planned_and_shipped: u64,
    pub expected: Option<u64>,
    pub missed: u64,
}

/// A project that does not fit its tier: shipped nothing its tier asked
/// for, or shipped past it, and by how many times.
#[derive(Debug, Clone)]
pub struct Misfit {
    pub project: String,
    pub tier: Option<Tier>,
    pub shipped: u64,
    pub expected: Option<u64>,
    pub times_over: Option<u64>,
}

/// What a look back found, as the report reads it.
#[derive(Debug, Clone)]
pub struct LookedBack {
    pub from: Week,
    pub to: Week,
    pub weeks: i64,
    pub shipped: Vec<ShippedItem>,
    pub on_time: u64,
    pub slipped: u64,
    pub unplanned: u64,
    pub planned_share: Option<u64>,
    pub missed: Vec<MissedItem>,
    pub standings: Vec<Standing>,
    pub stalled: Vec<Misfit>,
    pub outgrown: Vec<Misfit>,
}

pub open spec fn opt_week_text(w: Option<Week>) -> Seq<char> {
    match w {
        Some(x) => week_text(x),
        None => Seq::empty(),
    }
}

pub open spec fn opt_tier_text(t: Option<Tier>) -> Seq<char> {
    match t {
        Some(x) => tier_text(x),
        None => Seq::empty(),
    }
}

pub open spec fn or_zero(n: Option<u64>) -> nat {
    match n {
        Some(x) => x as nat,
        None => 0,
    }
}

pub open spec fn slip_of(s: ShippedItem) -> int {
    match s.slip {
        Some(x) => x as int,
        None => 0,
    }
}

pub open spec fn missed_line(m: MissedItem) -> Seq<char> {
    "  "@ + m.project@ + "  "@ + m.version@ + " — was due "@ + week_text(m.planned) + " ("@ + weeks_late_text(m.weeks as int)
        + " by the end of the window)"@
}

/// What a shipped version's line is made of.
pub type ShippedKey = (Seq<char>, Seq<char>, Week, Option<Week>, Option<i64>);

pub open spec fn shipped_key(s: ShippedItem) -> ShippedKey {
    (s.project@, s.version@, s.week, s.planned, s.slip)
}

pub open spec fn key_slip(k: ShippedKey) -> int {
    match k.4 {
        Some(x) => x as int,
        None => 0,
    }
}

pub open spec fn key_line(k: ShippedKey) -> Seq<char> {
    "  "@ + k.0 + "  "@ + k.1 + " — aimed at "@ + opt_week_text(k.3) + ", out in "@ + week_text(k.2) + " ("@
        + weeks_late_text(key_slip(k)) + ")"@
}

pub open spec fn slip_line(s: ShippedItem) -> Seq<char> {
    key_line(shipped_key(s))
}

pub open spec fn tier_tag(t: Option<Tier>) -> Seq<char> {
    match t {
        Some(x) => "["@ + tier_text(x) + "]"@,
        None => "   "@,
    }
}

pub open spec fn asked_text(e: Option<u64>) -> Seq<char> {
    match e {
        Some(n) => decimal(n as nat) + " asked"@,
        None => "none asked"@,
    }
}

pub open spec fn missed_part(m: u64) -> Seq<char> {
    if m > 0 {
        ", "@ + decimal(m as nat) + " missed"@
    } else {
        Seq::empty()
    }
}

pub open spec fn standing_line(s: Standing, w: nat) -> Seq<char> {
    "  "@ + pad(s.project@, w) + " "@ + tier_tag(s.tier) + "  "@ + decimal(s.shipped as nat) + " shipped ("@
        + decimal(s.planned_and_shipped as nat) + " planned), "@ + asked_text(s.expected) + missed_part(s.missed)
}

pub open spec fn stalled_line(m: Misfit) -> Seq<char> {
    "  "@ + m.project@ + " ["@ + opt_tier_text(m.tier) + "]  0 against "@ + decimal(or_zero(m.expected)) + " asked for"@
}

pub open spec fn outgrown_line(m: Misfit) -> Seq<char> {
    "  "@ + m.project@ + " ["@ + opt_tier_text(m.tier) + "]  "@ + decimal(m.shipped as nat) + " shipped against "@
        + decimal(or_zero(m.expected)) + " asked for ("@ + decimal(or_zero(m.times_over)) + "x)"@
}

pub open spec fn more_line(n: nat) -> Seq<char> {
    "  ... and "@ + decimal(n) + " more"@
}

/// The widest project name among the standings, in characters.
pub open spec fn name_width(ss: Seq<Standing>) -> nat
    decreases ss.len(),
{
    if ss.len() == 0 {
        0
    } else {
        let w = name_width(ss.drop_last());
        if ss.last().project@.len() > w {
            ss.last().project@.len()
        } else {
            w
        }
    }
}

/// The versions that shipped away from where they were aimed.
pub open spec fn slips(ss: Seq<ShippedItem>) -> Seq<ShippedItem>
    decreases ss.len(),
{
    if ss.len() == 0 {
        Seq::empty()
    } else if ss.last().slip matches Some(n) && n != 0 {
        slips(ss.drop_last()).push(ss.last())
    } else {
        slips(ss.drop_last())
    }
}

/// Slipped further first.
pub open spec fn slip_order() -> spec_fn(ShippedItem, ShippedItem) -> bool {
    |a: ShippedItem, b: ShippedItem| slip_of(a) > slip_of(b)
}

/// The slips, worst first, in the order they came where two slipped alike.
pub open spec fn slips_worst_first(ss: Seq<ShippedItem>) -> Seq<ShippedItem> {
    crate::order::stable_sort(slips(ss), slip_order())
}

/// Whether a shipped version came out in another week than it was aimed at,
/// early or late.
pub open spec fn off_its_week(s: ShippedItem) -> bool {
    s.slip is Some && s.slip->0 != 0
}

proof fn lemma_slips_are_off(ss: Seq<ShippedItem>)
    ensures
        forall|j: int| 0 <= j < slips(ss).len() ==> #[trigger] off_its_week(slips(ss)[j]),
        forall|i: int| 0 <= i < ss.len() && #[trigger] off_its_week(ss[i]) ==> slips(ss).contains(ss[i]),
    decreases ss.len(),
{
    if ss.len() > 0 {
        let init = ss.drop_last();
        lemma_slips_are_off(init);
        let all = slips(ss);
        let rest = slips(init);
        assert forall|j: int| 0 <= j < all.len() implies #[trigger] off_its_week(all[j]) by {
            if j < rest.len() {
                assert(all[j] == rest[j]);
            }
        }
        assert forall|i: int| 0 <= i < ss.len() && #[trigger] off_its_week(ss[i]) implies all.contains(ss[i]) by {
            if i < init.len() {
                assert(init[i] == ss[i]);
                let k = choose|k: int| 0 <= k < rest.len() && rest[k] == init[i];
                assert(all[k] == rest[k]);
            } else {
                assert(all[all.len() - 1] == ss[i]);
            }
        }
    }
}

/// The slips a look back lists are exactly the versions that shipped off
/// the week they were aimed at: each one early as well as late is there,
/// and nothing that shipped on time, or unplanned, is.
pub proof fn law_every_slip_is_listed(ss: Seq<ShippedItem>)
    ensures
        forall|i: int| 0 <= i < ss.len() && (#[trigger] ss[i]).slip is Some && ss[i].slip->0 != 0 ==> slips_worst_first(ss).contains(ss[i]),
        forall|j: int|
            0 <= j < slips_worst_first(ss).len() ==> (#[trigger] slips_worst_first(ss)[j]).slip is Some && slips_worst_first(ss)[j].slip->0 != 0,
{
    broadcast use vstd::seq_lib::group_to_multiset_ensures;
    lemma_slips_are_off(ss);
    crate::order::law_sorted_is_in_order(slips(ss), slip_order());
    crate::order::lemma_stable_sort_keeps(slips(ss), slip_order(), |s: ShippedItem| off_its_week(s));
    let sorted = slips_worst_first(ss);
    assert forall|i: int| 0 <= i < ss.len() && (#[trigger] ss[i]).slip is Some && ss[i].slip->0 != 0 implies sorted.contains(ss[i]) by {
        assert(off_its_week(ss[i]));
        assert(slips(ss).to_multiset().count(ss[i]) > 0);
        assert(sorted.to_multiset().count(ss[i]) > 0);
    }
    assert forall|j: int| 0 <= j < sorted.len() implies (#[trigger] sorted[j]).slip is Some && sorted[j].slip->0 != 0 by {
        assert((|s: ShippedItem| off_its_week(s))(sorted[j]));
    }
}

/// A list of at most `k` lines, and a line saying how many more there are.
pub open spec fn capped(lines: Seq<Seq<char>>, k: nat) -> Seq<Seq<char>> {
    if lines.len() > k {
        lines.take(k as int).push(more_line((lines.len() - k) as nat))
    } else {
        lines
    }
}

/// A section: a blank line, its heading and its lines, when it has any.
pub open spec fn section(heading: Seq<char>, lines: Seq<Seq<char>>) -> Seq<Seq<char>> {
    if lines.len() == 0 {
        Seq::empty()
    } else {
        seq![Seq::empty(), heading] + lines
    }
}

pub open spec fn head_lines(l: LookedBack) -> Seq<Seq<char>> {
    seq![
        week_text(l.from) + " to "@ + week_text(l.to) + " — "@ + plural_text(
            (if l.weeks > 0 {
                l.weeks
            } else {
                0
            }) as nat,
            "week"@,
            "weeks"@,
        ),
        Seq::empty(),
    ]
}

pub open spec fn counts_line(l: LookedBack) -> Seq<char> {
    decimal(l.shipped@.len()) + " shipped — "@ + decimal(l.on_time as nat) + " on time, "@ + decimal(l.slipped as nat)
        + " slipped, "@ + decimal(l.unplanned as nat) + " unplanned"@
}

pub open spec fn share_lines(l: LookedBack) -> Seq<Seq<char>> {
    match l.planned_share {
        Some(p) => seq![decimal(p as nat) + "% of what shipped had been planned"@],
        None => Seq::empty(),
    }
}

pub open spec fn missed_heading() -> Seq<char> {
    "Planned and not shipped:"@
}

pub open spec fn slips_heading() -> Seq<char> {
    "Shipped, but not when it was aimed:"@
}

pub open spec fn standings_heading() -> Seq<char> {
    "Per project:"@
}

pub open spec fn stalled_heading() -> Seq<char> {
    "Nothing shipped, and their tier asked for something:"@
}

pub open spec fn outgrown_heading() -> Seq<char> {
    "Shipping past their tier — it may be describing the wrong thing now:"@
}

pub open spec fn move_line() -> Seq<char> {
    "  move one with: rigger project tier <project> <A|B|C|out>"@
}

pub open spec fn keep_line() -> Seq<char> {
    "Keep this in the record with: rigger retro --record"@
}

/// The report a look back prints, line by line; with `record` the report
/// is being kept, so it does not end by saying how to keep it.
pub open spec fn retro_text(l: LookedBack, record: bool) -> Seq<Seq<char>> {
    if l.shipped@.len() == 0 && l.missed@.len() == 0 {
        head_lines(l) + seq!["Nothing shipped and nothing was aimed at these weeks."@] + if record {
            seq![Seq::empty(), "Nothing to keep."@]
        } else {
            Seq::empty()
        }
    } else {
        head_lines(l) + seq![counts_line(l)] + share_lines(l) + section(
            missed_heading(),
            l.missed@.map_values(|m: MissedItem| missed_line(m)),
        ) + section(slips_heading(), capped(slips_worst_first(l.shipped@).map_values(|s: ShippedItem| slip_line(s)), 10))
            + section(
            standings_heading(),
            l.standings@.map_values(|s: Standing| standing_line(s, name_width(l.standings@))),
        ) + section(stalled_heading(), l.stalled@.map_values(|m: Misfit| stalled_line(m))) + section(
            outgrown_heading(),
            capped(l.outgrown@.map_values(|m: Misfit| outgrown_line(m)), 5),
        ) + (if l.stalled@.len() > 0 || l.outgrown@.len() > 0 {
            seq![move_line()]
        } else {
            Seq::empty()
        }) + seq![Seq::empty()] + if record {
            Seq::empty()
        } else {
            seq![keep_line()]
        }
    }
}

fn push_line(out: &mut Vec<String>, line: &Vec<char>)
    ensures
        strings(final(out)@) == strings(old(out)@).push(line@),
{
    let ghost before = out@;
    out.push(text_of(line));
    assert(strings(out@) =~= strings(before).push(line@));
}

fn push_text(out: &mut Vec<char>, s: &String)
    ensures
        final(out)@ == old(out)@ + s@,
{
    append(out, &chars_of_string(s));
}

fn push_week(out: &mut Vec<char>, w: Week)
    ensures
        final(out)@ == old(out)@ + week_text(w),
{
    push_text(out, &w.to_text());
}

fn missed_of(m: &MissedItem) -> (r: Vec<char>)
    ensures
        r@ == missed_line(*m),
{
    let mut out = lit("  ");
    push_text(&mut out, &m.project);
    append_str(&mut out, "  ");
    push_text(&mut out, &m.version);
    append_str(&mut out, " — was due ");
    push_week(&mut out, m.planned);
    append_str(&mut out, " (");
    push_text(&mut out, &weeks_late(m.weeks));
    append_str(&mut out, " by the end of the window)");
    out
}

fn slip_of_line(s: &ShippedItem) -> (r: Vec<char>)
    ensures
        r@ == slip_line(*s),
{
    let mut out = lit("  ");
    push_text(&mut out, &s.project);
    append_str(&mut out, "  ");
    push_text(&mut out, &s.version);
    append_str(&mut out, " — aimed at ");
    match s.planned {
        Some(w) => push_week(&mut out, w),
        None => {
            assert(out@ + Seq::<char>::empty() =~= out@);
        },
    }
    append_str(&mut out, ", out in ");
    push_week(&mut out, s.week);
    append_str(&mut out, " (");
    let slip: i64 = match s.slip {
        Some(n) => n,
        None => 0,
    };
    push_text(&mut out, &weeks_late(slip));
    append_str(&mut out, ")");
    out
}

fn push_tier(out: &mut Vec<char>, t: Option<Tier>)
    ensures
        final(out)@ == old(out)@ + opt_tier_text(t),
{
    match t {
        Some(x) => append_str(out, x.as_str()),
        None => {
            assert(old(out)@ + Seq::<char>::empty() =~= old(out)@);
        },
    }
}

fn standing_of(s: &Standing, w: usize) -> (r: Vec<char>)
    ensures
        r@ == standing_line(*s, w as nat),
{
    let mut out = lit("  ");
    push_pad(&mut out, &chars_of_string(&s.project), w);
    append_str(&mut out, " ");
    match s.tier {
        Some(x) => {
            append_str(&mut out, "[");
            append_str(&mut out, x.as_str());
            append_str(&mut out, "]");
        },
        None => append_str(&mut out, "   "),
    }
    append_str(&mut out, "  ");
    push_decimal(&mut out, s.shipped);
    append_str(&mut out, " shipped (");
    push_decimal(&mut out, s.planned_and_shipped);
    append_str(&mut out, " planned), ");
    match s.expected {
        Some(n) => {
            push_decimal(&mut out, n);
            append_str(&mut out, " asked");
        },
        None => append_str(&mut out, "none asked"),
    }
    if s.missed > 0 {
        append_str(&mut out, ", ");
        push_decimal(&mut out, s.missed);
        append_str(&mut out, " missed");
    }
    proof {
        reveal_strlit("");
    }
    assert(out@ =~= standing_line(*s, w as nat));
    out
}

fn stalled_of(m: &Misfit) -> (r: Vec<char>)
    ensures
        r@ == stalled_line(*m),
{
    let mut out = lit("  ");
    push_text(&mut out, &m.project);
    append_str(&mut out, " [");
    push_tier(&mut out, m.tier);
    append_str(&mut out, "]  0 against ");
    push_decimal(&mut out, match m.expected {
        Some(n) => n,
        None => 0,
    });
    append_str(&mut out, " asked for");
    out
}

fn outgrown_of(m: &Misfit) -> (r: Vec<char>)
    ensures
        r@ == outgrown_line(*m),
{
    let mut out = lit("  ");
    push_text(&mut out, &m.project);
    append_str(&mut out, " [");
    push_tier(&mut out, m.tier);
    append_str(&mut out, "]  ");
    push_decimal(&mut out, m.shipped);
    append_str(&mut out, " shipped against ");
    push_decimal(&mut out, match m.expected {
        Some(n) => n,
        None => 0,
    });
    append_str(&mut out, " asked for (");
    push_decimal(&mut out, match m.times_over {
        Some(n) => n,
        None => 0,
    });
    append_str(&mut out, "x)");
    out
}

fn width_of_names(ss: &Vec<Standing>) -> (r: usize)
    ensures
        r == name_width(ss@),
{
    let mut w: usize = 0;
    for i in 0..ss.len()
        invariant
            w == name_width(ss@.take(i as int)),
    {
        assert(ss@.take(i + 1).drop_last() =~= ss@.take(i as int));
        let n = chars_of_string(&ss[i].project).len();
        if n > w {
            w = n;
        }
    }
    assert(ss@.take(ss.len() as int) =~= ss@);
    w
}

fn copy_text(s: &String) -> (r: String)
    ensures
        r@ == s@,
{
    text_of(&chars_of_string(s))
}

fn copy_shipped(s: &ShippedItem) -> (r: ShippedItem)
    ensures
        r.project@ == s.project@,
        r.version@ == s.version@,
        r.week == s.week,
        r.planned == s.planned,
        r.slip == s.slip,
{
    ShippedItem { project: copy_text(&s.project), version: copy_text(&s.version), week: s.week, planned: s.planned, slip: s.slip }
}

fn slips_first(a: &ShippedItem, b: &ShippedItem) -> (r: bool)
    ensures
        r == (slip_of(*a) > slip_of(*b)),
{
    let x: i64 = match a.slip {
        Some(n) => n,
        None => 0,
    };
    let y: i64 = match b.slip {
        Some(n) => n,
        None => 0,
    };
    x > y
}


pub open spec fn key_order() -> spec_fn(ShippedKey, ShippedKey) -> bool {
    |a: ShippedKey, b: ShippedKey| key_slip(a) > key_slip(b)
}

fn push_missed(out: &mut Vec<String>, l: &LookedBack)
    ensures
        strings(final(out)@) == strings(old(out)@) + section(missed_heading(), l.missed@.map_values(|m: MissedItem| missed_line(m))),
{
    let ghost all = l.missed@.map_values(|m: MissedItem| missed_line(m));
    if l.missed.len() == 0 {
        assert(strings(out@) + section(missed_heading(), all) =~= strings(out@));
        return;
    }
    let ghost start = strings(out@);
    push_line(out, &Vec::new());
    push_line(out, &lit("Planned and not shipped:"));
    for i in 0..l.missed.len()
        invariant
            all == l.missed@.map_values(|m: MissedItem| missed_line(m)),
            strings(out@) == start + seq![Seq::<char>::empty(), missed_heading()] + all.take(i as int),
    {
        push_line(out, &missed_of(&l.missed[i]));
        assert(all.take(i + 1) =~= all.take(i as int).push(missed_line(l.missed@[i as int])));
    }
    assert(all.take(all.len() as int) =~= all);
}

fn push_capped_slips(out: &mut Vec<String>, sorted: &Vec<ShippedItem>)
    ensures
        strings(final(out)@) == strings(old(out)@) + section(slips_heading(), capped(sorted@.map_values(|s: ShippedItem| slip_line(s)), 10)),
{
    let ghost all = sorted@.map_values(|s: ShippedItem| slip_line(s));
    if sorted.len() == 0 {
        assert(capped(all, 10) =~= all);
        assert(strings(out@) + section(slips_heading(), capped(all, 10)) =~= strings(out@));
        return;
    }
    let ghost start = strings(out@);
    push_line(out, &Vec::new());
    push_line(out, &lit("Shipped, but not when it was aimed:"));
    let n = if sorted.len() > 10 {
        10
    } else {
        sorted.len()
    };
    for i in 0..n
        invariant
            n <= sorted.len(),
            all == sorted@.map_values(|s: ShippedItem| slip_line(s)),
            strings(out@) == start + seq![Seq::<char>::empty(), slips_heading()] + all.take(i as int),
    {
        push_line(out, &slip_of_line(&sorted[i]));
        assert(all.take(i + 1) =~= all.take(i as int).push(slip_line(sorted@[i as int])));
    }
    if sorted.len() > 10 {
        let mut more = lit("  ... and ");
        push_decimal(&mut more, (sorted.len() - 10) as u64);
        append_str(&mut more, " more");
        push_line(out, &more);
    } else {
        assert(all.take(n as int) =~= all);
    }
}

fn push_slips(out: &mut Vec<String>, l: &LookedBack)
    ensures
        strings(final(out)@) == strings(old(out)@) + section(
            slips_heading(),
            capped(slips_worst_first(l.shipped@).map_values(|s: ShippedItem| slip_line(s)), 10),
        ),
{
    let mut found: Vec<ShippedItem> = Vec::new();
    for i in 0..l.shipped.len()
        invariant
            found@.map_values(|s: ShippedItem| shipped_key(s)) == slips(l.shipped@.take(i as int)).map_values(
                |s: ShippedItem| shipped_key(s),
            ),
    {
        assert(l.shipped@.take(i + 1).drop_last() =~= l.shipped@.take(i as int));
        assert(l.shipped@.take(i + 1).last() == l.shipped@[i as int]);
        let item = &l.shipped[i];
        let keep = match item.slip {
            Some(n) => n != 0,
            None => false,
        };
        if keep {
            let ghost before = found@;
            let c = copy_shipped(item);
            found.push(c);
            assert(found@.map_values(|s: ShippedItem| shipped_key(s)) =~= before.map_values(|s: ShippedItem| shipped_key(s)).push(
                shipped_key(*item),
            ));
            assert(slips(l.shipped@.take(i + 1)).map_values(|s: ShippedItem| shipped_key(s)) =~= slips(
                l.shipped@.take(i as int),
            ).map_values(|s: ShippedItem| shipped_key(s)).push(shipped_key(*item)));
        }
    }
    assert(l.shipped@.take(l.shipped.len() as int) =~= l.shipped@);
    let ghost found_seq = found@;
    let sorted = crate::order::sorted_by(found, &slips_first, Ghost(slip_order()));
    proof {
        let f = |s: ShippedItem| shipped_key(s);
        crate::order::lemma_sort_map(found_seq, f, slip_order(), key_order());
        crate::order::lemma_sort_map(slips(l.shipped@), f, slip_order(), key_order());
        let a = sorted@.map_values(|s: ShippedItem| slip_line(s));
        let b = slips_worst_first(l.shipped@).map_values(|s: ShippedItem| slip_line(s));
        let ka = crate::order::stable_sort(found_seq, slip_order()).map_values(f);
        let kb = crate::order::stable_sort(slips(l.shipped@), slip_order()).map_values(f);
        assert(found_seq.map_values(f) =~= slips(l.shipped@).map_values(f));
        assert(ka == kb);
        assert(a.len() == ka.len() && b.len() == kb.len());
        assert forall|i: int| 0 <= i < a.len() implies a[i] == b[i] by {
            assert(ka[i] == kb[i]);
        }
        assert(a =~= b);
    }
    push_capped_slips(out, &sorted);
}

fn push_standings(out: &mut Vec<String>, l: &LookedBack)
    ensures
        strings(final(out)@) == strings(old(out)@) + section(
            standings_heading(),
            l.standings@.map_values(|s: Standing| standing_line(s, name_width(l.standings@))),
        ),
{
    let w = width_of_names(&l.standings);
    let ghost all = l.standings@.map_values(|s: Standing| standing_line(s, name_width(l.standings@)));
    if l.standings.len() == 0 {
        assert(strings(out@) + section(standings_heading(), all) =~= strings(out@));
        return;
    }
    let ghost start = strings(out@);
    push_line(out, &Vec::new());
    push_line(out, &lit("Per project:"));
    for i in 0..l.standings.len()
        invariant
            w == name_width(l.standings@),
            all == l.standings@.map_values(|s: Standing| standing_line(s, name_width(l.standings@))),
            strings(out@) == start + seq![Seq::<char>::empty(), standings_heading()] + all.take(i as int),
    {
        push_line(out, &standing_of(&l.standings[i], w));
        assert(all.take(i + 1) =~= all.take(i as int).push(standing_line(l.standings@[i as int], w as nat)));
    }
    assert(all.take(all.len() as int) =~= all);
}

fn push_stalled(out: &mut Vec<String>, l: &LookedBack)
    ensures
        strings(final(out)@) == strings(old(out)@) + section(stalled_heading(), l.stalled@.map_values(|m: Misfit| stalled_line(m))),
{
    let ghost all = l.stalled@.map_values(|m: Misfit| stalled_line(m));
    if l.stalled.len() == 0 {
        assert(strings(out@) + section(stalled_heading(), all) =~= strings(out@));
        return;
    }
    let ghost start = strings(out@);
    push_line(out, &Vec::new());
    push_line(out, &lit("Nothing shipped, and their tier asked for something:"));
    for i in 0..l.stalled.len()
        invariant
            all == l.stalled@.map_values(|m: Misfit| stalled_line(m)),
            strings(out@) == start + seq![Seq::<char>::empty(), stalled_heading()] + all.take(i as int),
    {
        push_line(out, &stalled_of(&l.stalled[i]));
        assert(all.take(i + 1) =~= all.take(i as int).push(stalled_line(l.stalled@[i as int])));
    }
    assert(all.take(all.len() as int) =~= all);
}

fn push_outgrown(out: &mut Vec<String>, l: &LookedBack)
    ensures
        strings(final(out)@) == strings(old(out)@) + section(
            outgrown_heading(),
            capped(l.outgrown@.map_values(|m: Misfit| outgrown_line(m)), 5),
        ),
{
    let ghost all = l.outgrown@.map_values(|m: Misfit| outgrown_line(m));
    if l.outgrown.len() == 0 {
        assert(capped(all, 5) =~= all);
        assert(strings(out@) + section(outgrown_heading(), capped(all, 5)) =~= strings(out@));
        return;
    }
    let ghost start = strings(out@);
    push_line(out, &Vec::new());
    push_line(out, &lit("Shipping past their tier — it may be describing the wrong thing now:"));
    let n = if l.outgrown.len() > 5 {
        5
    } else {
        l.outgrown.len()
    };
    for i in 0..n
        invariant
            n <= l.outgrown.len(),
            all == l.outgrown@.map_values(|m: Misfit| outgrown_line(m)),
            strings(out@) == start + seq![Seq::<char>::empty(), outgrown_heading()] + all.take(i as int),
    {
        push_line(out, &outgrown_of(&l.outgrown[i]));
        assert(all.take(i + 1) =~= all.take(i as int).push(outgrown_line(l.outgrown@[i as int])));
    }
    if l.outgrown.len() > 5 {
        let mut more = lit("  ... and ");
        push_decimal(&mut more, (l.outgrown.len() - 5) as u64);
        append_str(&mut more, " more");
        push_line(out, &more);
    } else {
        assert(all.take(n as int) =~= all);
    }
}

/// The report a look back prints, line by line. With `record` the report
/// is being kept, so it does not end by saying how to keep it.
pub fn retro_lines(looked: &LookedBack, record: bool) -> (r: Vec<String>)
    ensures
        strings(r@) == retro_text(*looked, record),
{
    let l = looked;
    let mut out: Vec<String> = Vec::new();
    let mut head = Vec::new();
    push_week(&mut head, l.from);
    append_str(&mut head, " to ");
    push_week(&mut head, l.to);
    append_str(&mut head, " — ");
    let weeks: u64 = if l.weeks > 0 {
        l.weeks as u64
    } else {
        0
    };
    push_plural(&mut head, weeks, "week", "weeks");
    push_line(&mut out, &head);
    push_line(&mut out, &Vec::new());
    assert(strings(out@) =~= head_lines(*l));
    if l.shipped.len() == 0 && l.missed.len() == 0 {
        push_line(&mut out, &lit("Nothing shipped and nothing was aimed at these weeks."));
        if record {
            push_line(&mut out, &Vec::new());
            push_line(&mut out, &lit("Nothing to keep."));
        }
        assert(strings(out@) =~= retro_text(*l, record));
        return out;
    }
    let mut counts = Vec::new();
    push_decimal(&mut counts, l.shipped.len() as u64);
    append_str(&mut counts, " shipped — ");
    push_decimal(&mut counts, l.on_time);
    append_str(&mut counts, " on time, ");
    push_decimal(&mut counts, l.slipped);
    append_str(&mut counts, " slipped, ");
    push_decimal(&mut counts, l.unplanned);
    append_str(&mut counts, " unplanned");
    push_line(&mut out, &counts);
    if let Some(p) = l.planned_share {
        let mut share = Vec::new();
        push_decimal(&mut share, p);
        append_str(&mut share, "% of what shipped had been planned");
        push_line(&mut out, &share);
    }
    let ghost upto_share = strings(out@);
    assert(upto_share =~= head_lines(*l) + seq![counts_line(*l)] + share_lines(*l));
    push_missed(&mut out, l);
    push_slips(&mut out, l);
    push_standings(&mut out, l);
    push_stalled(&mut out, l);
    push_outgrown(&mut out, l);
    let ghost before_move = strings(out@);
    if l.stalled.len() > 0 || l.outgrown.len() > 0 {
        push_line(&mut out, &lit("  move one with: rigger project tier <project> <A|B|C|out>"));
    }
    push_line(&mut out, &Vec::new());
    if !record {
        push_line(&mut out, &lit("Keep this in the record with: rigger retro --record"));
    }
    assert(strings(out@) =~= retro_text(*l, record));
    out
}

/// When anything shipped off its week, the report has the slips section:
/// its heading, each of the ten worst slips' lines, and, past ten, a line
/// counting the rest.
pub proof fn law_the_report_shows_the_slips(l: LookedBack, record: bool)
    requires
        slips(l.shipped@).len() > 0,
    ensures
        retro_text(l, record).contains(slips_heading()),
        forall|j: int|
            0 <= j < slips_worst_first(l.shipped@).len() && j < 10 ==> retro_text(l, record).contains(
                slip_line(#[trigger] slips_worst_first(l.shipped@)[j]),
            ),
        slips_worst_first(l.shipped@).len() > 10 ==> retro_text(l, record).contains(
            more_line((slips_worst_first(l.shipped@).len() - 10) as nat),
        ),
{
    let sorted = slips_worst_first(l.shipped@);
    crate::order::lemma_stable_sort_len(slips(l.shipped@), slip_order());
    let lines = sorted.map_values(|s: ShippedItem| slip_line(s));
    let shown = capped(lines, 10);
    let sec = section(slips_heading(), shown);
    assert(l.shipped@.len() > 0) by {
        if l.shipped@.len() == 0 {
            assert(slips(l.shipped@) =~= Seq::<ShippedItem>::empty());
        }
    }
    let before = head_lines(l) + seq![counts_line(l)] + share_lines(l) + section(
        missed_heading(),
        l.missed@.map_values(|m: MissedItem| missed_line(m)),
    );
    let t = retro_text(l, record);
    let b = before.len() as int;
    let after = t.subrange(b + sec.len(), t.len() as int);
    assert(shown.len() > 0);
    assert(t =~= before + sec + after);
    assert(t[b + 1] == slips_heading());
    assert forall|j: int| 0 <= j < sorted.len() && j < 10 implies t.contains(slip_line(#[trigger] sorted[j])) by {
        assert(shown[j] == lines[j]);
        assert(t[b + 2 + j] == slip_line(sorted[j]));
    }
    if sorted.len() > 10 {
        assert(t[b + 2 + 10] == more_line((sorted.len() - 10) as nat));
    }
}

/// The slips are listed worst first: a version that slipped later never
/// stands after one that slipped less, and early ones come last.
pub proof fn law_the_slips_come_worst_first(ss: Seq<ShippedItem>)
    ensures
        forall|i: int, j: int|
            0 <= i < j < slips_worst_first(ss).len() ==> (match (#[trigger] slips_worst_first(ss)[i]).slip {
                Some(x) => x as int,
                None => 0,
            }) >= (match (#[trigger] slips_worst_first(ss)[j]).slip {
                Some(x) => x as int,
                None => 0,
            }),
{
    crate::order::law_sorted_is_in_order(slips(ss), slip_order());
    let sorted = slips_worst_first(ss);
    assert forall|i: int, j: int| 0 <= i < j < sorted.len() implies (match (#[trigger] sorted[i]).slip {
        Some(x) => x as int,
        None => 0,
    }) >= (match (#[trigger] sorted[j]).slip {
        Some(x) => x as int,
        None => 0,
    }) by {
        assert(!(slip_order())(sorted[j], sorted[i]));
    }
}

} // verus!
