//! Whole numbers written in decimal, read the way `str::parse` reads them
//! into a fixed-width integer.
use vstd::prelude::*;
use crate::text::{append, decimal, is_digit, push_decimal};

verus! {

/// The value of a run of decimal digits.
pub open spec fn digits_value(s: Seq<char>) -> nat
    decreases s.len(),
{
    if s.len() == 0 {
        0
    } else {
        digits_value(s.drop_last()) * 10 + ((s.last() as u32) - ('0' as u32)) as nat
    }
}

pub open spec fn all_digits(s: Seq<char>) -> bool {
    forall|i: int| 0 <= i < s.len() ==> is_digit(#[trigger] s[i])
}

/// The number a text spells: an optional sign (a minus only where
/// `negative_ok`), then at least one digit and nothing else.
pub open spec fn spelled(s: Seq<char>, negative_ok: bool) -> Option<int> {
    if s.len() > 0 && s[0] == '-' && negative_ok {
        let d = s.drop_first();
        if d.len() > 0 && all_digits(d) {
            Some(-(digits_value(d) as int))
        } else {
            None
        }
    } else if s.len() > 0 && s[0] == '+' {
        let d = s.drop_first();
        if d.len() > 0 && all_digits(d) {
            Some(digits_value(d) as int)
        } else {
            None
        }
    } else if s.len() > 0 && all_digits(s) {
        Some(digits_value(s) as int)
    } else {
        None
    }
}

/// What `str::parse` gives for an integer type whose values run from `lo`
/// to `hi`: the number, when the text spells one in that range.
pub open spec fn parsed(s: Seq<char>, lo: int, hi: int) -> Option<int> {
    match spelled(s, lo < 0) {
        Some(v) => if lo <= v <= hi {
            Some(v)
        } else {
            None
        },
        None => None,
    }
}

proof fn lemma_digits_grow(s: Seq<char>, c: char)
    requires
        is_digit(c),
    ensures
        digits_value(s.push(c)) >= digits_value(s) * 10,
{
    assert(s.push(c).drop_last() =~= s);
}

/// The value of the digits from `a` on, or `None` when a character there
/// is not a digit; values above 10^19 are all reported as `Some(10^19 + 1)`.
fn digits_capped(s: &Vec<char>, a: usize) -> (r: Option<u128>)
    requires
        a <= s.len(),
    ensures
        r is None <==> !all_digits(s@.skip(a as int)),
        r matches Some(v) ==> (v <= 10_000_000_000_000_000_000 ==> v == digits_value(s@.skip(a as int))) && (v
            > 10_000_000_000_000_000_000 ==> digits_value(s@.skip(a as int)) > 10_000_000_000_000_000_000),
{
    let mut acc: u128 = 0;
    let mut big = false;
    let mut i = a;
    while i < s.len()
        invariant
            a <= i <= s.len(),
            all_digits(s@.subrange(a as int, i as int)),
            !big ==> acc == digits_value(s@.subrange(a as int, i as int)) && acc <= 10_000_000_000_000_000_000,
            big ==> digits_value(s@.subrange(a as int, i as int)) > 10_000_000_000_000_000_000,
        decreases s.len() - i,
    {
        let c = s[i];
        if !('0' <= c && c <= '9') {
            assert(s@.skip(a as int)[i - a] == c);
            return None;
        }
        let ghost before = s@.subrange(a as int, i as int);
        assert(s@.subrange(a as int, i + 1) =~= before.push(c));
        assert(s@.subrange(a as int, i + 1).drop_last() =~= before);
        proof {
            lemma_digits_grow(before, c);
        }
        if !big {
            let d: u128 = (c as u32 - '0' as u32) as u128;
            let next = acc * 10 + d;
            if next > 10_000_000_000_000_000_000 {
                big = true;
            } else {
                acc = next;
            }
        }
        i = i + 1;
    }
    assert(s@.subrange(a as int, s.len() as int) =~= s@.skip(a as int));
    if big {
        Some(10_000_000_000_000_000_001)
    } else {
        Some(acc)
    }
}

/// Reads an integer as `str::parse` does for a type whose values run from
/// `lo` to `hi`.
pub fn parse_in(s: &Vec<char>, lo: i64, hi: i64) -> (r: Option<i64>)
    ensures
        r matches Some(v) ==> parsed(s@, lo as int, hi as int) == Some(v as int),
        r is None ==> parsed(s@, lo as int, hi as int) is None,
{
    if s.len() == 0 {
        return None;
    }
    let neg = s[0] == '-' && lo < 0;
    let signed = neg || s[0] == '+';
    let start: usize = if signed {
        1
    } else {
        0
    };
    if signed && s.len() == 1 {
        return None;
    }
    proof {
        assert(s@.skip(1) =~= s@.drop_first());
        assert(s@.skip(0) =~= s@);
    }
    match digits_capped(s, start) {
        None => None,
        Some(v) => {
            if v > 10_000_000_000_000_000_000 {
                return None;
            }
            let value: i128 = if neg {
                -(v as i128)
            } else {
                v as i128
            };
            if lo as i128 <= value && value <= hi as i128 {
                Some(value as i64)
            } else {
                None
            }
        },
    }
}

/// `n` written in decimal at least `width` characters wide, zeros after
/// the sign making up the width (`{:0width$}`).
pub open spec fn padded(n: int, width: nat) -> Seq<char> {
    let digits = if n < 0 {
        decimal((-n) as nat)
    } else {
        decimal(n as nat)
    };
    let sign: Seq<char> = if n < 0 {
        seq!['-']
    } else {
        Seq::empty()
    };
    let fill = width - sign.len() - digits.len();
    sign + Seq::new(if fill > 0 {
        fill as nat
    } else {
        0
    }, |i: int| '0') + digits
}

pub fn push_padded(out: &mut Vec<char>, n: i64, width: usize)
    ensures
        final(out)@ == old(out)@ + padded(n as int, width as nat),
{
    let mut digits: Vec<char> = Vec::new();
    let m: u64 = if n < 0 {
        if n == i64::MIN {
            9223372036854775808u64
        } else {
            (-n) as u64
        }
    } else {
        n as u64
    };
    push_decimal(&mut digits, m);
    assert(digits@ =~= Seq::<char>::empty() + decimal(m as nat));
    let sign: usize = if n < 0 {
        out.push('-');
        1
    } else {
        0
    };
    let ghost start = out@;
    let mut k: usize = 0;
    if digits.len() < width && width - digits.len() > sign {
        let fill = width - digits.len() - sign;
        while k < fill
            invariant
                k <= fill,
                out@ == start + Seq::new(k as nat, |i: int| '0'),
            decreases fill - k,
        {
            out.push('0');
            assert(start + Seq::new((k + 1) as nat, |i: int| '0') =~= (start + Seq::new(k as nat, |i: int| '0')).push('0'));
            k = k + 1;
        }
    }
    append(out, &digits);
    proof {
        let fill = width - (if n < 0 { 1int } else { 0int }) - decimal(m as nat).len();
        assert(k == (if fill > 0 { fill } else { 0 }));
        if n < 0 {
            assert(old(out)@ + padded(n as int, width as nat) =~= old(out)@.push('-') + Seq::new(k as nat, |i: int| '0') + digits@);
        } else {
            assert(old(out)@ + padded(n as int, width as nat) =~= old(out)@ + Seq::new(k as nat, |i: int| '0') + digits@);
        }
    }
}

pub proof fn lemma_decimal_digits(n: nat)
    ensures
        digits_value(decimal(n)) == n,
        all_digits(decimal(n)),
        decimal(n).len() >= 1,
    decreases n,
{
    let c = crate::text::digit_char(n % 10);
    assert(c as u32 == '0' as u32 + n % 10);
    if n >= 10 {
        lemma_decimal_digits(n / 10);
        let d = decimal(n / 10);
        assert(decimal(n) == d.push(c));
        assert(d.push(c).drop_last() =~= d);
        assert(d.push(c).last() == c);
        assert(digits_value(d.push(c)) == digits_value(d) * 10 + ((c as u32) - ('0' as u32)) as nat);
        assert(n == (n / 10) * 10 + n % 10);
        assert forall|i: int| 0 <= i < d.push(c).len() implies is_digit(#[trigger] d.push(c)[i]) by {
            if i < d.len() {
                assert(d.push(c)[i] == d[i]);
            }
        }
    } else {
        assert(decimal(n) == seq![c]);
        assert(seq![c].drop_last() =~= Seq::<char>::empty());
        assert(digits_value(seq![c]) == digits_value(Seq::<char>::empty()) * 10 + ((c as u32) - ('0' as u32)) as nat);
    }
}

proof fn lemma_leading_zeros(k: nat, s: Seq<char>)
    requires
        all_digits(s),
    ensures
        digits_value(Seq::new(k, |i: int| '0') + s) == digits_value(s),
        all_digits(Seq::new(k, |i: int| '0') + s),
    decreases s.len(), k,
{
    let z = Seq::new(k, |i: int| '0');
    if s.len() > 0 {
        assert forall|i: int| 0 <= i < s.drop_last().len() implies is_digit(#[trigger] s.drop_last()[i]) by {
            assert(s.drop_last()[i] == s[i]);
        }
        lemma_leading_zeros(k, s.drop_last());
        assert((z + s).drop_last() =~= z + s.drop_last());
        assert((z + s).last() == s.last());
    } else if k > 0 {
        let z1 = Seq::new((k - 1) as nat, |i: int| '0');
        lemma_leading_zeros((k - 1) as nat, s);
        assert(z + s =~= z);
        assert(z.drop_last() =~= z1);
        assert(z1 + s =~= z1);
    } else {
        assert(z + s =~= Seq::<char>::empty());
    }
    assert forall|i: int| 0 <= i < (z + s).len() implies is_digit(#[trigger] (z + s)[i]) by {
        if i >= k {
            assert((z + s)[i] == s[i - k]);
        }
    }
}

/// A number written padded reads back as itself: leading zeros change
/// nothing a parse sees.
pub proof fn law_padded_reads_back(n: nat, width: nat, lo: int, hi: int)
    requires
        lo <= n <= hi,
    ensures
        parsed(padded(n as int, width), lo, hi) == Some(n as int),
        all_digits(padded(n as int, width)),
        padded(n as int, width).len() >= 1,
{
    lemma_decimal_digits(n);
    let d = decimal(n);
    let fill = width - d.len();
    let k: nat = if fill > 0 {
        fill as nat
    } else {
        0
    };
    lemma_leading_zeros(k, d);
    let p = padded(n as int, width);
    assert(p =~= Seq::new(k, |i: int| '0') + d);
    assert(p[0] != '-' && p[0] != '+') by {
        assert(is_digit(p[0]));
    }
}

} // verus!
