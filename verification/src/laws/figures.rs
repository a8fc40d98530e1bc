//! What figures, times and sizes say, read and written.

use vstd::arithmetic::power::pow;
use vstd::prelude::*;

use crate::laws::words::{law_a_text_is_trimmed_of_the_blanks_round_it, printed};
use crate::list::lemma_find;
use crate::number::{
    digits, duration, fraction, is_digit, is_letter, least, pointed, scaled, signed, unit_ms, units,
    unsigned, value,
};
use crate::size::{ends, in_units, size, size_asked, size_text, unit_of};
use crate::text::{dec, digit, lowered, trimmed};

verus! {

/// What is written in decimal is digits, and stands for the number it was.
pub proof fn law_a_number_reads_back(n: nat)
    ensures
        digits(dec(n)),
        dec(n).len() > 0,
        value(dec(n)) == n,
        unsigned(dec(n)) == Some(n),
        signed(dec(n)) == Some(n as int),
        n > 0 ==> signed("-"@ + dec(n)) == Some(-(n as int)),
        unsigned("+"@ + dec(n)) == Some(n),
    decreases n,
{
    assert(digit(n % 10) as nat == 48 + n % 10);
    if n >= 10 {
        law_a_number_reads_back(n / 10);
        assert(dec(n).drop_last() =~= dec(n / 10));
    } else {
        assert(dec(n) =~= seq![digit(n)]);
        assert(dec(n).drop_last() =~= Seq::empty());
        assert(value(dec(n).drop_last()) == 0);
    }
    assert(dec(n).last() == digit(n % 10));
    assert(value(dec(n)) == value(dec(n).drop_last()) * 10 + n % 10);
    assert(is_digit(dec(n)[0]));
    reveal_strlit("-");
    reveal_strlit("+");
    assert(("-"@ + dec(n)).skip(1) =~= dec(n));
    assert(("+"@ + dec(n)).skip(1) =~= dec(n));
}

pub(crate) proof fn lemma_scaled(n: nat, unit: nat)
    ensures
        scaled(dec(n), unit) == Some((false, least((n * unit) as int, u64::MAX as int) as u64)),
{
    law_a_number_reads_back(n);
    let s = dec(n);
    assert(is_digit(s[0]));
    assert forall|i: int| 0 <= i < s.len() implies s[i] != 'e' && s[i] != 'E' && s[i] != '.' by {
        assert(is_digit(s[i]));
    }
    lemma_find(s, |c: char| c == 'e' || c == 'E', s.len() as int);
    assert(s.take(s.len() as int) =~= s);
    lemma_find(s, |c: char| c == '.', s.len() as int);
    let none = Seq::<char>::empty();
    assert(pointed(s) == Some((s, none)));
    assert(fraction(s) == Some((false, s, none)));
    assert(value(none) == 0);
    reveal(pow);
    assert(pow(10, 0) == 1);
    assert((value(none) * unit) as int == 0) by (nonlinear_arith)
        requires
            value(none) == 0,
    ;
    assert(units(s, none, unit) == n * unit);
}

/// A figure is none where it is written with anything but digits.
pub proof fn law_what_is_no_number_reads_as_none(s: Seq<char>, i: int)
    requires
        0 <= i < s.len(),
        !('0' <= s[i] && s[i] <= '9'),
        i > 0 || (s[0] != '+' && s[0] != '-'),
    ensures
        unsigned(s) is None,
        signed(s) is None,
{
    assert(!is_digit(s[i]));
    if i > 0 {
        assert(s.skip(1)[i - 1] == s[i]);
    }
}

proof fn lemma_trimmed(s: Seq<char>)
    requires
        s.len() > 0 ==> printed(s[0]) && printed(s.last()),
    ensures
        trimmed(s) == s,
{
    let none = Seq::<char>::empty();
    law_a_text_is_trimmed_of_the_blanks_round_it(none, s, none);
    assert(none + s + none =~= s);
}

proof fn lemma_timed(n: nat, unit: Seq<char>)
    requires
        unit.len() > 0 ==> is_letter(unit[0]) && is_letter(unit.last()),
    ensures
        duration(dec(n) + unit) == match unit_ms(unit) {
            Some(u) => Some(least((n * u) as int, u64::MAX as int) as u64),
            None => None::<u64>,
        },
{
    law_a_number_reads_back(n);
    let s = dec(n);
    let t = s + unit;
    assert(is_digit(s[0]) && is_digit(s.last()));
    lemma_trimmed(t);
    lemma_trimmed(s);
    assert forall|i: int| 0 <= i < s.len() implies !is_letter(#[trigger] t[i]) by {
        assert(is_digit(s[i]));
    }
    lemma_find(t, |c: char| is_letter(c), s.len() as int);
    assert(t.take(s.len() as int) =~= s);
    assert(t.skip(s.len() as int) =~= unit);
    match unit_ms(unit) {
        Some(u) => lemma_scaled(n, u),
        None => {},
    }
}

/// A time is said in milliseconds, seconds, minutes, hours or days; a bare number is
/// milliseconds, and any other unit is none.
pub proof fn law_a_time_is_said_in_its_unit(n: nat)
    ensures
        n <= u64::MAX ==> duration(dec(n)) == Some(n as u64),
        n <= u64::MAX ==> duration(dec(n) + "ms"@) == Some(n as u64),
        n * 1_000 <= u64::MAX ==> duration(dec(n) + "s"@) == Some((n * 1_000) as u64),
        n * 60_000 <= u64::MAX ==> duration(dec(n) + "m"@) == Some((n * 60 * 1_000) as u64),
        n * 3_600_000 <= u64::MAX ==> duration(dec(n) + "h"@) == Some((n * 60 * 60 * 1_000) as u64),
        n * 86_400_000 <= u64::MAX ==> duration(dec(n) + "d"@) == Some(
            (n * 24 * 60 * 60 * 1_000) as u64,
        ),
        duration(dec(n) + "w"@) is None,
        duration(dec(n) + "y"@) is None,
{
    reveal_strlit("");
    reveal_strlit("ms");
    reveal_strlit("s");
    reveal_strlit("m");
    reveal_strlit("h");
    reveal_strlit("d");
    reveal_strlit("w");
    reveal_strlit("y");
    assert(""@ =~= Seq::empty());
    assert("ms"@.len() == 2 && "s"@.len() == 1 && "m"@.len() == 1 && "h"@.len() == 1 && "d"@.len()
        == 1 && "w"@.len() == 1 && "y"@.len() == 1);
    assert("s"@[0] == 's' && "m"@[0] == 'm' && "h"@[0] == 'h' && "d"@[0] == 'd' && "w"@[0] == 'w'
        && "y"@[0] == 'y');
    lemma_timed(n, ""@);
    assert(dec(n) + ""@ =~= dec(n));
    lemma_timed(n, "ms"@);
    lemma_timed(n, "s"@);
    lemma_timed(n, "m"@);
    lemma_timed(n, "h"@);
    lemma_timed(n, "d"@);
    lemma_timed(n, "w"@);
    lemma_timed(n, "y"@);
}

proof fn lemma_low(n: nat, unit: Seq<char>)
    requires
        forall|i: int| 0 <= i < unit.len() ==> 'a' <= #[trigger] unit[i] && unit[i] <= 'z',
    ensures
        lowered(trimmed(dec(n) + unit)) == dec(n) + unit,
{
    law_a_number_reads_back(n);
    let s = dec(n) + unit;
    assert forall|i: int| 0 <= i < s.len() implies printed(#[trigger] s[i]) && !('A' <= s[i]
        && s[i] <= 'Z') by {
        if i < dec(n).len() {
            assert(is_digit(dec(n)[i]));
        }
    }
    lemma_trimmed(s);
    assert(lowered(s) =~= s);
}

/// A size is said in bytes, or in the units above them, each a thousand and
/// twenty-four of the one before.
pub proof fn law_a_size_is_said_in_its_unit(n: nat)
    ensures
        size(dec(n)) is None,
        n <= u64::MAX ==> size(dec(n) + "b"@) == Some(n as u64),
        n * 1024 <= u64::MAX ==> size(dec(n) + "kb"@) == Some((n * 1024) as u64),
        n * 1_048_576 <= u64::MAX ==> size(dec(n) + "mb"@) == Some((n * 1_048_576) as u64),
        n * 1_073_741_824 <= u64::MAX ==> size(dec(n) + "gb"@) == Some((n * 1_073_741_824) as u64),
        n * 1_099_511_627_776 <= u64::MAX ==> size(dec(n) + "tb"@) == Some(
            (n * 1_099_511_627_776) as u64,
        ),
        n * 1_125_899_906_842_624 <= u64::MAX ==> size(dec(n) + "pb"@) == Some(
            (n * 1_125_899_906_842_624) as u64,
        ),
{
    reveal_strlit("b");
    reveal_strlit("kb");
    reveal_strlit("mb");
    reveal_strlit("gb");
    reveal_strlit("tb");
    reveal_strlit("pb");
    law_a_number_reads_back(n);
    let d = dec(n);
    lemma_trimmed(d);
    lemma_low(n, Seq::empty());
    assert(d + Seq::<char>::empty() =~= d);
    lemma_sized(n, "b"@, 1);
    lemma_sized(n, "kb"@, 1024);
    lemma_sized(n, "mb"@, 1_048_576);
    lemma_sized(n, "gb"@, 1_073_741_824);
    lemma_sized(n, "tb"@, 1_099_511_627_776);
    lemma_sized(n, "pb"@, 1_125_899_906_842_624);
    assert(is_digit(d.last()));
    assert forall|tail: Seq<char>| tail.len() > 0 && !is_digit(tail.last()) implies !#[trigger] ends(
        d,
        tail,
    ) by {
        if ends(d, tail) {
            assert(d.skip(d.len() - tail.len()).last() == d.last());
        }
    }
    assert(unit_of(d) is None);
}

spec fn is_unit(unit: Seq<char>, u: nat) -> bool {
    ||| unit == "b"@ && u == 1
    ||| unit == "kb"@ && u == 1024
    ||| unit == "mb"@ && u == 1_048_576
    ||| unit == "gb"@ && u == 1_073_741_824
    ||| unit == "tb"@ && u == 1_099_511_627_776
    ||| unit == "pb"@ && u == 1_125_899_906_842_624
}

proof fn lemma_unit_of(s: Seq<char>, unit: Seq<char>, u: nat)
    requires
        is_unit(unit, u),
        s.len() > unit.len(),
        ends(s, unit),
        is_digit(s[s.len() - unit.len() - 1]),
    ensures
        unit_of(s) == Some((s.take(s.len() - unit.len()), u)),
{
    reveal_strlit("b");
    reveal_strlit("kb");
    reveal_strlit("mb");
    reveal_strlit("gb");
    reveal_strlit("tb");
    reveal_strlit("pb");
    let two = s.skip(s.len() - 2);
    let one = s.skip(s.len() - 1);
    assert(two[0] == s[s.len() - 2] && two[1] == s[s.len() - 1]);
    assert(one[0] == s[s.len() - 1]);
    if unit.len() == 2 {
        assert(two == unit);
    } else {
        assert(one == unit);
    }
    assert("kb"@[0] == 'k' && "mb"@[0] == 'm' && "gb"@[0] == 'g' && "tb"@[0] == 't' && "pb"@[0]
        == 'p');
}

proof fn lemma_sized(n: nat, unit: Seq<char>, u: nat)
    requires
        is_unit(unit, u),
    ensures
        size(dec(n) + unit) == Some(least((n * u) as int, u64::MAX as int) as u64),
{
    reveal_strlit("b");
    reveal_strlit("kb");
    reveal_strlit("mb");
    reveal_strlit("gb");
    reveal_strlit("tb");
    reveal_strlit("pb");
    law_a_number_reads_back(n);
    let s = dec(n) + unit;
    lemma_low(n, unit);
    assert(s.skip(s.len() - unit.len()) =~= unit);
    assert(is_digit(dec(n).last()));
    lemma_unit_of(s, unit, u);
    assert(s.take(s.len() - unit.len()) =~= dec(n));
    lemma_trimmed(dec(n));
    lemma_scaled(n, u);
}

/// A size is shown in the largest unit it fills, to a tenth, with the tenth left off
/// where it is none.
pub proof fn law_a_size_is_shown_in_the_largest_unit_it_fills(n: nat)
    ensures
        n < 1024 ==> size_text(n) == dec(n) + "b"@,
        1024 <= n < 1_048_576 ==> shows(n, 1024, "kb"@, size_text(n)),
        1_048_576 <= n < 1_073_741_824 ==> shows(n, 1_048_576, "mb"@, size_text(n)),
        1_073_741_824 <= n < 1_099_511_627_776 ==> shows(n, 1_073_741_824, "gb"@, size_text(n)),
        1_099_511_627_776 <= n < 1_125_899_906_842_624 ==> shows(
            n,
            1_099_511_627_776,
            "tb"@,
            size_text(n),
        ),
        1_125_899_906_842_624 <= n ==> shows(n, 1_125_899_906_842_624, "pb"@, size_text(n)),
{
    lemma_shows(n, 1024, "kb"@);
    lemma_shows(n, 1_048_576, "mb"@);
    lemma_shows(n, 1_073_741_824, "gb"@);
    lemma_shows(n, 1_099_511_627_776, "tb"@);
    lemma_shows(n, 1_125_899_906_842_624, "pb"@);
}

/// Whether a text gives a size as so many of a unit and so many tenths of it.
pub open spec fn gives(n: nat, unit: nat, name: Seq<char>, text: Seq<char>, w: nat, t: nat) -> bool {
    &&& t < 10
    &&& (w * 10 + t) * unit <= n * 10 < (w * 10 + t + 1) * unit
    &&& text == if t == 0 {
        dec(w) + name
    } else {
        dec(w) + "."@ + dec(t) + name
    }
}

/// Whether a text gives a size in a unit, to a tenth.
pub open spec fn shows(n: nat, unit: nat, name: Seq<char>, text: Seq<char>) -> bool {
    exists|w: nat, t: nat| gives(n, unit, name, text, w, t)
}

proof fn lemma_shows(n: nat, unit: nat, name: Seq<char>)
    requires
        unit > 0,
    ensures
        shows(n, unit, name, in_units(n, unit, name)),
{
    let tenths = (n * 10) / unit;
    let w = tenths / 10;
    let t = tenths % 10;
    assert(w * 10 + t == tenths);
    assert(tenths * unit <= n * 10 < (tenths + 1) * unit) by (nonlinear_arith)
        requires
            unit > 0,
            tenths == (n * 10) / unit,
    ;
    assert(gives(n, unit, name, in_units(n, unit, name), w, t));
}

/// A size that is asked for in a unit is given as so many whole ones, with no unit
/// to it; asked for in none, it is given as it is shown.
pub proof fn law_a_size_is_given_in_the_unit_asked_for(n: nat)
    ensures
        size_asked(None, n) == size_text(n),
        size_asked(Some("b"@), n) == dec(n),
        size_asked(Some("k"@), n) == dec(n / 1024),
        size_asked(Some("kb"@), n) == dec(n / 1024),
        size_asked(Some("m"@), n) == dec(n / 1_048_576),
        size_asked(Some("mb"@), n) == dec(n / 1_048_576),
        size_asked(Some("g"@), n) == dec(n / 1_073_741_824),
        size_asked(Some("gb"@), n) == dec(n / 1_073_741_824),
        size_asked(Some("t"@), n) == dec(n / 1_099_511_627_776),
        size_asked(Some("tb"@), n) == dec(n / 1_099_511_627_776),
        size_asked(Some("p"@), n) == dec(n / 1_125_899_906_842_624),
        size_asked(Some("pb"@), n) == dec(n / 1_125_899_906_842_624),
{
    reveal_strlit("b");
    reveal_strlit("k");
    reveal_strlit("kb");
    reveal_strlit("m");
    reveal_strlit("mb");
    reveal_strlit("g");
    reveal_strlit("gb");
    reveal_strlit("t");
    reveal_strlit("tb");
    reveal_strlit("p");
    reveal_strlit("pb");
    assert("b"@[0] == 'b' && "k"@[0] == 'k' && "m"@[0] == 'm' && "g"@[0] == 'g' && "t"@[0] == 't'
        && "p"@[0] == 'p');
    assert("kb"@[0] == 'k' && "mb"@[0] == 'm' && "gb"@[0] == 'g' && "tb"@[0] == 't' && "pb"@[0]
        == 'p');
    assert("b"@.len() == 1 && "k"@.len() == 1 && "m"@.len() == 1 && "g"@.len() == 1 && "t"@.len()
        == 1 && "p"@.len() == 1);
    assert("kb"@.len() == 2 && "mb"@.len() == 2 && "gb"@.len() == 2 && "tb"@.len() == 2
        && "pb"@.len() == 2);
}

} // verus!
