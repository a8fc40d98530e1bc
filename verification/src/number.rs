//! Numbers read out of text, without rounding.

use vstd::arithmetic::div_mod::{lemma_div_denominator, lemma_hoist_over_denominator};
use vstd::arithmetic::power::{lemma_pow_positive, pow};
use vstd::prelude::*;

use crate::list::{find, lemma_find, lemma_take};
use crate::text::{chars_of, part, string_of, trim, trimmed};

verus! {

pub open spec fn is_digit(c: char) -> bool {
    '0' <= c && c <= '9'
}

/// Whether a string is digits and nothing else.
pub open spec fn digits(s: Seq<char>) -> bool {
    forall|i: int| 0 <= i < s.len() ==> is_digit(#[trigger] s[i])
}

/// The number a string of digits writes.
pub open spec fn value(s: Seq<char>) -> nat
    decreases s.len(),
{
    if s.len() == 0 {
        0
    } else {
        value(s.drop_last()) * 10 + (s.last() as u32 - 48) as nat
    }
}

/// An unsigned number: digits, with a plus sign before them or without.
pub open spec fn unsigned(s: Seq<char>) -> Option<nat> {
    let t = if s.len() > 0 && s[0] == '+' {
        s.skip(1)
    } else {
        s
    };
    if t.len() > 0 && digits(t) {
        Some(value(t))
    } else {
        None
    }
}

/// A signed number: digits, with a sign before them or without.
pub open spec fn signed(s: Seq<char>) -> Option<int> {
    if s.len() > 0 && s[0] == '-' {
        if s.len() > 1 && digits(s.skip(1)) {
            Some(-(value(s.skip(1)) as int))
        } else {
            None
        }
    } else {
        match unsigned(s) {
            Some(n) => Some(n as int),
            None => None,
        }
    }
}

/// A decimal number without a sign or an exponent: the digits before the point
/// and those behind it.
pub open spec fn pointed(t: Seq<char>) -> Option<(Seq<char>, Seq<char>)> {
    let i = find(t, |c: char| c == '.');
    let whole = t.take(i);
    let rest = if i < t.len() {
        t.skip(i + 1)
    } else {
        Seq::empty()
    };
    if digits(whole) && digits(rest) && whole.len() + rest.len() > 0 {
        Some((whole, rest))
    } else {
        None
    }
}

/// The furthest a point is moved. No number that is worth telling from nothing,
/// or from one that is too large for anything, is further away.
pub const FURTHEST_POINT: i64 = 1_000;

/// How far a point is moved by an exponent.
pub open spec fn moved_by(exponent: int) -> int {
    if exponent > FURTHEST_POINT {
        FURTHEST_POINT as int
    } else if exponent < -FURTHEST_POINT {
        -FURTHEST_POINT
    } else {
        exponent
    }
}

pub open spec fn noughts(n: int) -> Seq<char> {
    Seq::new(
        if n < 0 {
            0
        } else {
            n as nat
        },
        |i: int| '0',
    )
}

/// A decimal number with its point moved, behind by some places or, below
/// nothing, before by some.
pub open spec fn shifted(whole: Seq<char>, rest: Seq<char>, by: int) -> (Seq<char>, Seq<char>) {
    if by >= 0 {
        if by <= rest.len() {
            (whole + rest.take(by), rest.skip(by))
        } else {
            (whole + rest + noughts(by - rest.len()), Seq::empty())
        }
    } else if -by <= whole.len() {
        (whole.take(whole.len() + by), whole.skip(whole.len() + by) + rest)
    } else {
        (Seq::empty(), noughts(-by - whole.len()) + whole + rest)
    }
}

/// A decimal number, with an exponent behind it or without: whether it is below
/// nothing, the digits before the point and those behind it.
pub open spec fn fraction(s: Seq<char>) -> Option<(bool, Seq<char>, Seq<char>)> {
    let t = if s.len() > 0 && (s[0] == '+' || s[0] == '-') {
        s.skip(1)
    } else {
        s
    };
    let k = find(t, |c: char| c == 'e' || c == 'E');
    match pointed(t.take(k)) {
        Some((whole, rest)) => if k >= t.len() {
            Some((s[0] == '-', whole, rest))
        } else {
            match signed(t.skip(k + 1)) {
                Some(exponent) => {
                    let (a, b) = shifted(whole, rest, moved_by(exponent));
                    Some((s[0] == '-', a, b))
                },
                None => None,
            }
        },
        None => None,
    }
}

/// A number of whole units in a decimal number, what is over left out.
pub open spec fn units(whole: Seq<char>, rest: Seq<char>, unit: nat) -> int {
    value(whole) * unit + (value(rest) * unit) as int / pow(10, rest.len())
}

pub open spec fn least(a: int, b: int) -> int {
    if a <= b {
        a
    } else {
        b
    }
}

/// A decimal number in whole units, no more than a `u64` holds.
pub open spec fn scaled(s: Seq<char>, unit: nat) -> Option<(bool, u64)> {
    match fraction(s) {
        Some((below, whole, rest)) => Some(
            (below, least(units(whole, rest, unit), u64::MAX as int) as u64),
        ),
        None => None,
    }
}

fn all_digits(v: &Vec<char>, from: usize, to: usize) -> (r: bool)
    requires
        from <= to <= v@.len(),
    ensures
        r == digits(v@.subrange(from as int, to as int)),
{
    for i in from..to
        invariant
            from <= i <= to <= v@.len(),
            forall|j: int| from <= j < i ==> is_digit(#[trigger] v@[j]),
    {
        if !('0' <= v[i] && v[i] <= '9') {
            assert(!is_digit(v@.subrange(from as int, to as int)[i - from]));
            return false;
        }
    }
    assert forall|j: int| 0 <= j < to - from implies is_digit(
        #[trigger] v@.subrange(from as int, to as int)[j],
    ) by {
        assert(is_digit(v@[from + j]));
    }
    true
}

/// The number some digits write, or the largest `u64` when it is larger.
pub(crate) fn capped(v: &Vec<char>, from: usize, to: usize) -> (r: u64)
    requires
        from <= to <= v@.len(),
        digits(v@.subrange(from as int, to as int)),
    ensures
        r == least(value(v@.subrange(from as int, to as int)) as int, u64::MAX as int),
{
    let ghost s = v@.subrange(from as int, to as int);
    let mut r: u64 = 0;
    for i in from..to
        invariant
            from <= i <= to <= v@.len(),
            s == v@.subrange(from as int, to as int),
            digits(s),
            r == least(value(s.take(i - from)) as int, u64::MAX as int),
    {
        proof {
            lemma_take(s, i - from);
            assert(is_digit(s[i - from]));
        }
        let d: u128 = (v[i] as u32 - 48) as u128;
        let x: u128 = r as u128 * 10 + d;
        r = if x > u64::MAX as u128 {
            u64::MAX
        } else {
            x as u64
        };
    }
    assert(s.take(to - from) =~= s);
    r
}

/// The first digit of a number is worth its place.
proof fn lemma_front(s: Seq<char>)
    requires
        s.len() > 0,
        digits(s),
    ensures
        value(s) == (s[0] as u32 - 48) * pow(10, (s.len() - 1) as nat) + value(s.skip(1)),
    decreases s.len(),
{
    reveal(pow);
    if s.len() == 1 {
        assert(s.drop_last() =~= Seq::<char>::empty());
        assert(s.skip(1) =~= Seq::<char>::empty());
        assert(value(s.drop_last()) == 0);
        assert(pow(10, 0) == 1);
    } else {
        let t = s.drop_last();
        assert(digits(t)) by {
            assert forall|i: int| 0 <= i < t.len() implies is_digit(#[trigger] t[i]) by {
                assert(is_digit(s[i]));
            }
        }
        lemma_front(t);
        assert(s.skip(1).drop_last() =~= t.skip(1));
        assert(s.skip(1).last() == s.last());
        let k = (s.len() - 2) as nat;
        assert(pow(10, k + 1) == 10 * pow(10, k));
        let d = s[0] as u32 - 48;
        assert((d * pow(10, k) + value(t.skip(1))) * 10 == d * (10 * pow(10, k)) + value(t.skip(1))
            * 10) by (nonlinear_arith);
    }
}

/// Whole units behind the point, digit by digit from the last one.
proof fn lemma_behind(s: Seq<char>, unit: nat)
    requires
        s.len() > 0,
        digits(s),
    ensures
        (value(s) * unit) as int / pow(10, s.len()) == ((s[0] as u32 - 48) * unit + (value(
            s.skip(1),
        ) * unit) as int / pow(10, (s.len() - 1) as nat)) / 10,
{
    lemma_front(s);
    let k = (s.len() - 1) as nat;
    let p = pow(10, k);
    lemma_pow_positive(10, k);
    assert(is_digit(s[0]));
    assert(pow(10, k + 1) == 10 * p) by {
        reveal(pow);
    }
    let d = s[0] as u32 - 48;
    let w = value(s.skip(1));
    let x = w * unit;
    assert((d * p + w) * unit == x + (d * unit) * p) by (nonlinear_arith)
        requires
            x == w * unit,
    ;
    assert(value(s) * unit == x + (d * unit) * p);
    assert(x >= 0) by (nonlinear_arith)
        requires
            x == w * unit,
    ;
    assert((d * unit) * p >= 0) by (nonlinear_arith)
        requires
            d >= 0,
            p > 0,
    ;
    lemma_div_denominator(value(s) * unit as int, p, 10);
    assert(p * 10 == 10 * p);
    lemma_hoist_over_denominator(x as int, (d * unit) as int, p as nat);
}

/// Whole units of what is behind a point, what is over left out.
pub(crate) fn behind(v: &Vec<char>, from: usize, unit: u64) -> (r: u64)
    requires
        from <= v@.len(),
        digits(v@.skip(from as int)),
    ensures
        r == (value(v@.skip(from as int)) * unit) as int / pow(10, (v@.len() - from) as nat),
        r <= unit,
{
    let mut r: u64 = 0;
    let mut i: usize = v.len();
    proof {
        reveal(pow);
        assert(v@.skip(v@.len() as int) =~= Seq::<char>::empty());
        assert(value(v@.skip(v@.len() as int)) == 0);
        assert(pow(10, 0) == 1);
        assert(0nat * unit == 0) by (nonlinear_arith);
    }
    while i > from
        invariant
            from <= i <= v@.len(),
            digits(v@.skip(from as int)),
            r == (value(v@.skip(i as int)) * unit) as int / pow(10, (v@.len() - i) as nat),
            r <= unit,
        decreases i,
    {
        i -= 1;
        let ghost s = v@.skip(i as int);
        proof {
            assert(digits(s)) by {
                assert forall|j: int| 0 <= j < s.len() implies is_digit(#[trigger] s[j]) by {
                    assert(is_digit(v@.skip(from as int)[i - from + j]));
                }
            }
            lemma_behind(s, unit as nat);
            assert(s.skip(1) =~= v@.skip(i + 1));
            assert(is_digit(s[0]));
        }
        let d: u128 = v[i] as u128 - 48;
        assert(d * unit <= 9 * unit) by (nonlinear_arith)
            requires
                d <= 9,
        ;
        r = ((d * unit as u128 + r as u128) / 10) as u64;
    }
    r
}

/// An unsigned number, when it fits.
pub fn parse_u64(s: &str) -> (r: Option<u64>)
    ensures
        match unsigned(s@) {
            Some(n) => if n <= u64::MAX {
                r == Some(n as u64)
            } else {
                r is None
            },
            None => r is None,
        },
{
    let v = chars_of(s);
    let from: usize = if v.len() > 0 && v[0] == '+' {
        1
    } else {
        0
    };
    assert(v@.subrange(1, v@.len() as int) =~= v@.skip(1) || v@.len() == 0);
    assert(v@.subrange(0, v@.len() as int) =~= v@);
    if v.len() == from || !all_digits(&v, from, v.len()) {
        return None;
    }
    number_at(&v, from)
}

fn number_at(v: &Vec<char>, from: usize) -> (r: Option<u64>)
    requires
        from <= v@.len(),
        digits(v@.subrange(from as int, v@.len() as int)),
    ensures
        match r {
            Some(n) => n == value(v@.subrange(from as int, v@.len() as int)),
            None => value(v@.subrange(from as int, v@.len() as int)) > u64::MAX,
        },
{
    let ghost s = v@.subrange(from as int, v@.len() as int);
    let mut n: u64 = 0;
    for i in from..v.len()
        invariant
            from <= i <= v@.len(),
            s == v@.subrange(from as int, v@.len() as int),
            digits(s),
            n == value(s.take(i - from)),
    {
        proof {
            lemma_take(s, i - from);
            assert(is_digit(s[i - from]));
        }
        let d: u128 = (v[i] as u32 - 48) as u128;
        let x: u128 = n as u128 * 10 + d;
        if x > u64::MAX as u128 {
            proof {
                lemma_longer(s, i - from + 1);
            }
            return None;
        }
        n = x as u64;
    }
    assert(s.take(v@.len() - from) =~= s);
    Some(n)
}

proof fn lemma_longer(s: Seq<char>, i: int)
    requires
        digits(s),
        0 <= i <= s.len(),
    ensures
        value(s.take(i)) <= value(s),
    decreases s.len() - i,
{
    if i == s.len() {
        assert(s.take(i) =~= s);
    } else {
        lemma_take(s, i);
        assert(is_digit(s[i]));
        lemma_longer(s, i + 1);
    }
}

/// A signed number, when it fits.
pub fn parse_i64(s: &str) -> (r: Option<i64>)
    ensures
        match signed(s@) {
            Some(n) => if i64::MIN <= n <= i64::MAX {
                r == Some(n as i64)
            } else {
                r is None
            },
            None => r is None,
        },
{
    let v = chars_of(s);
    if v.len() > 0 && v[0] == '-' {
        assert(v@.subrange(1, v@.len() as int) =~= v@.skip(1));
        if v.len() == 1 || !all_digits(&v, 1, v.len()) {
            return None;
        }
        match number_at(&v, 1) {
            Some(n) => {
                if n <= 0x8000_0000_0000_0000 {
                    Some((-(n as i128)) as i64)
                } else {
                    None
                }
            },
            None => None,
        }
    } else {
        match parse_u64(s) {
            Some(n) => {
                if n <= i64::MAX as u64 {
                    Some(n as i64)
                } else {
                    None
                }
            },
            None => None,
        }
    }
}

fn read_pointed(v: &Vec<char>, from: usize, to: usize) -> (r: Option<(Vec<char>, Vec<char>)>)
    requires
        from <= to <= v@.len(),
    ensures
        match pointed(v@.subrange(from as int, to as int)) {
            Some((whole, rest)) => r matches Some((w, b)) && w@ == whole && b@ == rest && digits(
                whole,
            ) && digits(rest),
            None => r is None,
        },
{
    let ghost t = v@.subrange(from as int, to as int);
    let ghost p = |c: char| c == '.';
    let mut dot: usize = from;
    while dot < to && v[dot] != '.'
        invariant
            from <= dot <= to <= v@.len(),
            t == v@.subrange(from as int, to as int),
            p == (|c: char| c == '.'),
            forall|j: int| 0 <= j < dot - from ==> !p(#[trigger] t[j]),
        decreases to - dot,
    {
        assert(!p(t[dot - from]));
        dot += 1;
    }
    proof {
        lemma_find(t, p, dot - from);
        assert(t.take(dot - from) =~= v@.subrange(from as int, dot as int));
    }
    let after: usize = if dot < to {
        dot + 1
    } else {
        dot
    };
    assert(dot < to ==> t.skip(dot - from + 1) =~= v@.subrange(after as int, to as int));
    assert(dot >= to ==> v@.subrange(after as int, to as int) =~= Seq::<char>::empty());
    if !all_digits(v, from, dot) || !all_digits(v, after, to) || dot - from + (to - after) == 0 {
        return None;
    }
    Some((part(v, from, dot), part(v, after, to)))
}

fn read_exponent(v: &Vec<char>, from: usize) -> (r: Option<i64>)
    requires
        from <= v@.len(),
    ensures
        match signed(v@.skip(from as int)) {
            Some(n) => r matches Some(m) && m == moved_by(n),
            None => r is None,
        },
{
    let ghost t = v@.skip(from as int);
    let below = from < v.len() && v[from] == '-';
    let first: usize = if from < v.len() && (v[from] == '-' || v[from] == '+') {
        from + 1
    } else {
        from
    };
    assert(v@.subrange(first as int, v@.len() as int) =~= if first > from {
        t.skip(1)
    } else {
        t
    });
    if first == v.len() || !all_digits(v, first, v.len()) {
        return None;
    }
    let n: u64 = capped(v, first, v.len());
    let m: i64 = if n > FURTHEST_POINT as u64 {
        FURTHEST_POINT
    } else {
        n as i64
    };
    Some(
        if below {
            -m
        } else {
            m
        },
    )
}

fn append(out: &mut Vec<char>, v: &Vec<char>, from: usize, to: usize)
    requires
        from <= to <= v@.len(),
    ensures
        final(out)@ == old(out)@ + v@.subrange(from as int, to as int),
{
    let ghost start = out@;
    assert(start + v@.subrange(from as int, from as int) =~= start);
    for i in from..to
        invariant
            from <= i <= to <= v@.len(),
            out@ == start + v@.subrange(from as int, i as int),
    {
        out.push(v[i]);
        assert(out@ =~= start + v@.subrange(from as int, i + 1));
    }
}

fn append_noughts(out: &mut Vec<char>, n: usize)
    ensures
        final(out)@ == old(out)@ + noughts(n as int),
{
    let ghost start = out@;
    assert(start + noughts(0) =~= start);
    for i in 0..n
        invariant
            out@ == start + noughts(i as int),
    {
        out.push('0');
        assert(out@ =~= start + noughts(i + 1));
    }
}

fn shift(whole: &Vec<char>, rest: &Vec<char>, by: i64) -> (r: (Vec<char>, Vec<char>))
    requires
        -FURTHEST_POINT <= by <= FURTHEST_POINT,
    ensures
        (r.0@, r.1@) == shifted(whole@, rest@, by as int),
{
    let mut a: Vec<char> = Vec::new();
    let mut b: Vec<char> = Vec::new();
    if by >= 0 {
        let n: usize = by as usize;
        append(&mut a, whole, 0, whole.len());
        if n <= rest.len() {
            append(&mut a, rest, 0, n);
            append(&mut b, rest, n, rest.len());
            assert(b@ =~= rest@.skip(by as int));
            assert(a@ =~= whole@ + rest@.take(by as int));
        } else {
            append(&mut a, rest, 0, rest.len());
            append_noughts(&mut a, n - rest.len());
            assert(a@ =~= whole@ + rest@ + noughts(by - rest@.len()));
            assert(b@ =~= Seq::<char>::empty());
        }
    } else {
        let n: usize = (-by) as usize;
        if n <= whole.len() {
            append(&mut a, whole, 0, whole.len() - n);
            append(&mut b, whole, whole.len() - n, whole.len());
            append(&mut b, rest, 0, rest.len());
            assert(a@ =~= whole@.take(whole@.len() + by));
            assert(b@ =~= whole@.skip(whole@.len() + by) + rest@);
        } else {
            append_noughts(&mut b, n - whole.len());
            append(&mut b, whole, 0, whole.len());
            append(&mut b, rest, 0, rest.len());
            assert(b@ =~= noughts(-by - whole@.len()) + whole@ + rest@);
            assert(a@ =~= Seq::<char>::empty());
        }
    }
    (a, b)
}

proof fn lemma_shifted(whole: Seq<char>, rest: Seq<char>, by: int)
    requires
        digits(whole),
        digits(rest),
    ensures
        digits(shifted(whole, rest, by).0),
        digits(shifted(whole, rest, by).1),
{
    let (a, b) = shifted(whole, rest, by);
    assert forall|i: int| 0 <= i < a.len() implies is_digit(#[trigger] a[i]) by {
        if i < whole.len() {
            assert(is_digit(whole[i]));
        } else if i < whole.len() + rest.len() {
            assert(is_digit(rest[i - whole.len()]));
        }
    }
    assert forall|i: int| 0 <= i < b.len() implies is_digit(#[trigger] b[i]) by {
        if by >= 0 {
            assert(is_digit(rest[by + i]));
        } else {
            let at = i + whole.len() + by;
            if 0 <= at < whole.len() {
                assert(is_digit(whole[at]));
            } else if at >= whole.len() {
                assert(is_digit(rest[at - whole.len()]));
            }
        }
    }
}

/// A decimal number, with an exponent behind it or without: whether it is below
/// nothing, the digits before the point and those behind it.
pub fn parse_fraction(s: &str) -> (r: Option<(bool, Vec<char>, Vec<char>)>)
    ensures
        match fraction(s@) {
            Some((below, whole, rest)) => r matches Some((b, w, f)) && b == below && w@ == whole
                && f@ == rest && digits(whole) && digits(rest),
            None => r is None,
        },
{
    let v = chars_of(s);
    let from: usize = if v.len() > 0 && (v[0] == '+' || v[0] == '-') {
        1
    } else {
        0
    };
    let ghost t = v@.skip(from as int);
    assert(v@.skip(0) =~= v@);
    let ghost p = |c: char| c == 'e' || c == 'E';
    let mut e: usize = from;
    while e < v.len() && v[e] != 'e' && v[e] != 'E'
        invariant
            from <= e <= v@.len(),
            t == v@.skip(from as int),
            p == (|c: char| c == 'e' || c == 'E'),
            forall|j: int| 0 <= j < e - from ==> !p(#[trigger] t[j]),
        decreases v@.len() - e,
    {
        assert(!p(t[e - from]));
        e += 1;
    }
    proof {
        lemma_find(t, p, e - from);
        assert(t.take(e - from) =~= v@.subrange(from as int, e as int));
    }
    match read_pointed(&v, from, e) {
        None => None,
        Some((whole, rest)) => {
            if e == v.len() {
                return Some((v[0] == '-', whole, rest));
            }
            assert(t.skip(e - from + 1) =~= v@.skip(e + 1));
            match read_exponent(&v, e + 1) {
                Some(by) => {
                    proof {
                        lemma_shifted(whole@, rest@, by as int);
                    }
                    let (a, b) = shift(&whole, &rest, by);
                    Some((v[0] == '-', a, b))
                },
                None => None,
            }
        },
    }
}

/// A decimal number in whole units, what is over left out: whether it is
/// below nothing, and how many units it is away from it.
pub fn parse_scaled(s: &str, unit: u64) -> (r: Option<(bool, u64)>)
    requires
        0 < unit,
    ensures
        r == scaled(s@, unit as nat),
{
    let (below, whole, rest) = match parse_fraction(s) {
        Some(f) => f,
        None => {
            return None;
        },
    };
    assert(whole@.subrange(0, whole@.len() as int) =~= whole@);
    assert(rest@.skip(0) =~= rest@);
    let n: u64 = capped(&whole, 0, whole.len());
    let b: u64 = behind(&rest, 0, unit);
    proof {
        let exact = value(whole@);
        assert(n * unit <= u64::MAX * u64::MAX) by (nonlinear_arith)
            requires
                n <= u64::MAX,
                unit <= u64::MAX,
        ;
        if exact > u64::MAX {
            assert(exact * unit >= u64::MAX) by (nonlinear_arith)
                requires
                    exact > u64::MAX,
                    unit >= 1,
            ;
            assert(n * unit >= u64::MAX) by (nonlinear_arith)
                requires
                    n == u64::MAX,
                    unit >= 1,
            ;
        }
    }
    let x: u128 = n as u128 * unit as u128 + b as u128;
    let r: u64 = if x > u64::MAX as u128 {
        u64::MAX
    } else {
        x as u64
    };
    Some((below, r))
}

// ---- times ---------------------------------------------------------------------

/// Milliseconds, of a clock or of a delay.
pub type Millis = u64;

pub open spec fn is_letter(c: char) -> bool {
    ('a' <= c && c <= 'z') || ('A' <= c && c <= 'Z')
}

/// How many milliseconds a unit of time is.
pub open spec fn unit_ms(unit: Seq<char>) -> Option<nat> {
    if unit == ""@ || unit == "ms"@ {
        Some(1)
    } else if unit == "s"@ {
        Some(1_000)
    } else if unit == "m"@ {
        Some(60_000)
    } else if unit == "h"@ {
        Some(3_600_000)
    } else if unit == "d"@ {
        Some(86_400_000)
    } else {
        None
    }
}

/// A time value in milliseconds: a decimal number and a unit, milliseconds
/// when there is none. What is below nothing is nothing.
pub open spec fn duration(s: Seq<char>) -> Option<Millis> {
    let t = trimmed(s);
    let i = find(t, |c: char| is_letter(c));
    match unit_ms(t.skip(i)) {
        Some(unit) => match scaled(trimmed(t.take(i)), unit) {
            Some((below, ms)) => Some(
                if below {
                    0
                } else {
                    ms
                },
            ),
            None => None,
        },
        None => None,
    }
}

/// A time value in milliseconds (`1m`, `30s`, `500ms`, `0`).
pub fn time_ms(s: &str) -> (r: Option<Millis>)
    ensures
        r == duration(s@),
{
    let t = trim(s);
    let v = chars_of(t.as_str());
    let ghost p = |c: char| is_letter(c);
    let mut i: usize = 0;
    while i < v.len() && !(('a' <= v[i] && v[i] <= 'z') || ('A' <= v[i] && v[i] <= 'Z'))
        invariant
            i <= v@.len(),
            p == (|c: char| is_letter(c)),
            forall|j: int| 0 <= j < i ==> !p(#[trigger] v@[j]),
        decreases v@.len() - i,
    {
        assert(!p(v@[i as int]));
        i += 1;
    }
    proof {
        lemma_find(v@, p, i as int);
    }
    let head = part(&v, 0, i);
    let tail = part(&v, i, v.len());
    assert(head@ =~= v@.take(i as int));
    assert(tail@ =~= v@.skip(i as int));
    let number = trim(string_of(&head).as_str());
    let name = string_of(&tail);
    let unit: u64 = if name == "".to_owned() || name == "ms".to_owned() {
        1
    } else if name == "s".to_owned() {
        1_000
    } else if name == "m".to_owned() {
        60_000
    } else if name == "h".to_owned() {
        3_600_000
    } else if name == "d".to_owned() {
        86_400_000
    } else {
        return None;
    };
    match parse_scaled(number.as_str(), unit) {
        Some((below, ms)) => Some(
            if below {
                0
            } else {
                ms
            },
        ),
        None => None,
    }
}

} // verus!
