//! Sizes as settings and messages write them.

use vstd::prelude::*;

use crate::number::{parse_scaled, scaled};
use crate::text::{chars_of, dec, decimal, lower, lowered, part, same, string_of, trim, trimmed};

verus! {

/// Whether a string ends with another.
pub open spec fn ends(s: Seq<char>, tail: Seq<char>) -> bool {
    tail.len() <= s.len() && s.skip(s.len() - tail.len()) == tail
}

/// What comes before a suffix, when the string ends with it.
pub fn strip_suffix(s: &str, tail: &str) -> (r: Option<String>)
    ensures
        match r {
            Some(rest) => ends(s@, tail@) && rest@ == s@.take(s@.len() - tail@.len()),
            None => !ends(s@, tail@),
        },
{
    let v = chars_of(s);
    let t = chars_of(tail);
    if t.len() > v.len() {
        return None;
    }
    let from: usize = v.len() - t.len();
    let end = part(&v, from, v.len());
    assert(end@ =~= s@.skip(from as int));
    if same(string_of(&end).as_str(), tail) {
        let head = part(&v, 0, from);
        assert(head@ =~= s@.take(from as int));
        Some(string_of(&head))
    } else {
        None
    }
}

/// How many bytes a unit is, and what is left of a size without it. A size
/// that names no unit is none.
pub open spec fn unit_of(s: Seq<char>) -> Option<(Seq<char>, nat)> {
    if ends(s, "kb"@) {
        Some((s.take(s.len() - 2), 0x400))
    } else if ends(s, "mb"@) {
        Some((s.take(s.len() - 2), 0x10_0000))
    } else if ends(s, "gb"@) {
        Some((s.take(s.len() - 2), 0x4000_0000))
    } else if ends(s, "tb"@) {
        Some((s.take(s.len() - 2), 0x100_0000_0000))
    } else if ends(s, "pb"@) {
        Some((s.take(s.len() - 2), 0x4_0000_0000_0000))
    } else if ends(s, "b"@) {
        Some((s.take(s.len() - 1), 1))
    } else {
        None
    }
}

/// A size in bytes: a number that is not below nothing, and its unit.
pub open spec fn size(s: Seq<char>) -> Option<u64> {
    match unit_of(lowered(trimmed(s))) {
        Some((number, unit)) => match scaled(trimmed(number), unit) {
            Some((below, n)) => if below {
                None
            } else {
                Some(n)
            },
            None => None,
        },
        None => None,
    }
}

fn split_unit(s: &str) -> (r: Option<(String, u64)>)
    ensures
        match unit_of(s@) {
            Some((number, unit)) => r matches Some((n, u)) && n@ == number && u == unit,
            None => r is None,
        },
        r matches Some((n, u)) ==> 0 < u,
{
    proof {
        reveal_strlit("kb");
        reveal_strlit("mb");
        reveal_strlit("gb");
        reveal_strlit("tb");
        reveal_strlit("pb");
        reveal_strlit("b");
    }
    if let Some(n) = strip_suffix(s, "kb") {
        return Some((n, 0x400));
    }
    if let Some(n) = strip_suffix(s, "mb") {
        return Some((n, 0x10_0000));
    }
    if let Some(n) = strip_suffix(s, "gb") {
        return Some((n, 0x4000_0000));
    }
    if let Some(n) = strip_suffix(s, "tb") {
        return Some((n, 0x100_0000_0000));
    }
    if let Some(n) = strip_suffix(s, "pb") {
        return Some((n, 0x4_0000_0000_0000));
    }
    if let Some(n) = strip_suffix(s, "b") {
        return Some((n, 1));
    }
    None
}

/// A size in bytes (`4gb`, `1.5kb`, `512b`).
pub fn parse_size(s: &str) -> (r: Option<u64>)
    ensures
        r == size(s@),
{
    let t = lower(trim(s).as_str());
    match split_unit(t.as_str()) {
        Some((number, unit)) => match parse_scaled(trim(number.as_str()).as_str(), unit) {
            Some((below, n)) => {
                if below {
                    None
                } else {
                    Some(n)
                }
            },
            None => None,
        },
        None => None,
    }
}

/// A number of units with one figure behind the point, where it is not a nought.
pub open spec fn in_units(n: nat, unit: nat, name: Seq<char>) -> Seq<char> {
    let tenths = (n * 10) / unit;
    if tenths % 10 == 0 {
        dec(tenths / 10) + name
    } else {
        dec(tenths / 10) + "."@ + dec(tenths % 10) + name
    }
}

/// A size as messages show it, in the largest unit it fills.
pub open spec fn size_text(n: nat) -> Seq<char> {
    if n < 0x400 {
        dec(n) + "b"@
    } else if n < 0x10_0000 {
        in_units(n, 0x400, "kb"@)
    } else if n < 0x4000_0000 {
        in_units(n, 0x10_0000, "mb"@)
    } else if n < 0x100_0000_0000 {
        in_units(n, 0x4000_0000, "gb"@)
    } else if n < 0x4_0000_0000_0000 {
        in_units(n, 0x100_0000_0000, "tb"@)
    } else {
        in_units(n, 0x4_0000_0000_0000, "pb"@)
    }
}

fn show_units(n: u64, unit: u64, name: &str) -> (r: String)
    requires
        unit > 0,
    ensures
        r@ == in_units(n as nat, unit as nat, name@),
{
    let tenths: u128 = (n as u128 * 10) / unit as u128;
    if tenths % 10 == 0 {
        crate::text::decimal_wide(tenths / 10).concat(name)
    } else {
        crate::text::decimal_wide(tenths / 10).concat(".").concat(
            crate::text::decimal_wide(tenths % 10).as_str(),
        ).concat(name)
    }
}

/// A size as messages show it, in the largest unit it fills.
pub fn sized(n: u64) -> (r: String)
    ensures
        r@ == size_text(n as nat),
{
    if n < 0x400 {
        decimal(n).concat("b")
    } else if n < 0x10_0000 {
        show_units(n, 0x400, "kb")
    } else if n < 0x4000_0000 {
        show_units(n, 0x10_0000, "mb")
    } else if n < 0x100_0000_0000 {
        show_units(n, 0x4000_0000, "gb")
    } else if n < 0x4_0000_0000_0000 {
        show_units(n, 0x100_0000_0000, "tb")
    } else {
        show_units(n, 0x4_0000_0000_0000, "pb")
    }
}

/// How many bytes one of a unit is.
pub open spec fn bytes_in(unit: Seq<char>) -> Option<nat> {
    if unit == "b"@ {
        Some(1)
    } else if unit == "k"@ || unit == "kb"@ {
        Some(0x400)
    } else if unit == "m"@ || unit == "mb"@ {
        Some(0x10_0000)
    } else if unit == "g"@ || unit == "gb"@ {
        Some(0x4000_0000)
    } else if unit == "t"@ || unit == "tb"@ {
        Some(0x100_0000_0000)
    } else if unit == "p"@ || unit == "pb"@ {
        Some(0x4_0000_0000_0000)
    } else {
        None
    }
}

/// A size in whole units of one kind where one is asked for, else in the unit
/// that reads best.
pub open spec fn size_asked(unit: Option<Seq<char>>, n: nat) -> Seq<char> {
    match unit {
        Some(u) => match bytes_in(u) {
            Some(b) => dec(n / b),
            None => size_text(n),
        },
        None => size_text(n),
    }
}

/// A size in whole units of one kind where one is asked for, else in the unit
/// that reads best.
pub fn sized_in(unit: &Option<String>, n: u64) -> (r: String)
    ensures
        r@ == size_asked(unit.deep_view(), n as nat),
{
    if let Some(u) = unit {
        let u = u.as_str();
        let b: u64 = if same(u, "b") {
            1
        } else if same(u, "k") || same(u, "kb") {
            0x400
        } else if same(u, "m") || same(u, "mb") {
            0x10_0000
        } else if same(u, "g") || same(u, "gb") {
            0x4000_0000
        } else if same(u, "t") || same(u, "tb") {
            0x100_0000_0000
        } else if same(u, "p") || same(u, "pb") {
            0x4_0000_0000_0000
        } else {
            0
        };
        if b > 0 {
            return decimal(n / b);
        }
    }
    sized(n)
}

} // verus!
