//! What holds of recolouring: each declaration is recoloured on its own, and
//! what has been recoloured stays as it is.

use vstd::prelude::*;

use super::brand::{
    channel_and_comma, channel_at, channel_of, comma_at, green_at, hex_at, hex_end, hex_pair,
    hex_text, hex_two, hex_value, lemma_moved, lights, moved_to, number_from, opened_at,
    put_at_place, recoloured_from, rgb_at, rgb_text, span, spaces_end, widest, word_at, Colour,
    FINE,
};
use crate::number::is_digit;
use crate::text::{dec, digit, lower_char};

verus! {

// ---- texts that read alike -----------------------------------------------------

/// Whether a character stands in no colour but at its start.
spec fn stops(c: char) -> bool {
    c == ';' || c == '#' || c == 'r' || c == 'R'
}

/// Whether two texts, each from a place on, are the same for a number of
/// characters and then both end, or go on with something no colour goes on with.
spec fn alike(u: Seq<char>, i: int, v: Seq<char>, j: int, n: int) -> bool {
    &&& 0 <= i && 0 <= j && 0 <= n
    &&& i + n <= u.len()
    &&& j + n <= v.len()
    &&& forall|k: int| 0 <= k < n ==> #[trigger] u[i + k] == v[j + k]
    &&& i + n < u.len() ==> stops(u[i + n])
    &&& j + n < v.len() ==> stops(v[j + n])
}

proof fn lemma_same_char(u: Seq<char>, i: int, v: Seq<char>, j: int, n: int, m: int)
    requires
        alike(u, i, v, j, n),
        0 <= m < n,
    ensures
        u[i + m] == v[j + m],
{
}

proof fn lemma_hex_run(u: Seq<char>, i: int, v: Seq<char>, j: int, n: int, m: int)
    requires
        alike(u, i, v, j, n),
        0 <= m <= n,
    ensures
        hex_end(u, i + m) - i == hex_end(v, j + m) - j,
        m <= hex_end(u, i + m) - i <= n,
    decreases n - m,
{
    if m < n {
        lemma_same_char(u, i, v, j, n, m);
        if hex_value(u[i + m]) is Some {
            lemma_hex_run(u, i, v, j, n, m + 1);
        }
    }
}

proof fn lemma_space_run(u: Seq<char>, i: int, v: Seq<char>, j: int, n: int, m: int)
    requires
        alike(u, i, v, j, n),
        0 <= m <= n,
    ensures
        spaces_end(u, i + m) - i == spaces_end(v, j + m) - j,
        m <= spaces_end(u, i + m) - i <= n,
    decreases n - m,
{
    if m < n {
        lemma_same_char(u, i, v, j, n, m);
        if u[i + m] == ' ' {
            lemma_space_run(u, i, v, j, n, m + 1);
        }
    }
}

proof fn lemma_number_run(u: Seq<char>, i: int, v: Seq<char>, j: int, n: int, m: int, so_far: int)
    requires
        alike(u, i, v, j, n),
        0 <= m <= n,
    ensures
        number_from(u, i + m, so_far).0 == number_from(v, j + m, so_far).0,
        number_from(u, i + m, so_far).1 - i == number_from(v, j + m, so_far).1 - j,
        m <= number_from(u, i + m, so_far).1 - i <= n,
    decreases n - m,
{
    if m < n {
        lemma_same_char(u, i, v, j, n, m);
        if is_digit(u[i + m]) {
            lemma_number_run(u, i, v, j, n, m + 1, so_far * 10 + (u[i + m] as u32 - 48));
        }
    }
}

/// Whether two readings are of the same value and end at the same place of
/// texts that are alike.
spec fn same_reading<T>(a: Option<(T, int)>, i: int, b: Option<(T, int)>, j: int, least: int, n: int) -> bool {
    match (a, b) {
        (Some((x, e)), Some((y, f))) => x == y && e - i == f - j && least <= e - i <= n,
        (None, None) => true,
        _ => false,
    }
}

proof fn lemma_channel(u: Seq<char>, i: int, v: Seq<char>, j: int, n: int, m: int)
    requires
        alike(u, i, v, j, n),
        0 <= m <= n,
    ensures
        same_reading(channel_at(u, i + m), i, channel_at(v, j + m), j, m, n),
{
    lemma_space_run(u, i, v, j, n, m);
    lemma_number_run(u, i, v, j, n, spaces_end(u, i + m) - i, 0);
}

proof fn lemma_comma(u: Seq<char>, i: int, v: Seq<char>, j: int, n: int, m: int)
    requires
        alike(u, i, v, j, n),
        0 <= m <= n,
    ensures
        match (comma_at(u, i + m), comma_at(v, j + m)) {
            (Some(e), Some(f)) => e - i == f - j && m <= e - i <= n,
            (None, None) => true,
            _ => false,
        },
{
    lemma_space_run(u, i, v, j, n, m);
    let k = spaces_end(u, i + m) - i;
    if k < n {
        lemma_same_char(u, i, v, j, n, k);
    }
}

proof fn lemma_pair(u: Seq<char>, i: int, v: Seq<char>, j: int, n: int, m: int)
    requires
        alike(u, i, v, j, n),
        0 <= m <= n,
    ensures
        same_reading(channel_and_comma(u, i + m), i, channel_and_comma(v, j + m), j, m, n),
{
    lemma_channel(u, i, v, j, n, m);
    match channel_at(u, i + m) {
        Some((x, e)) => {
            lemma_comma(u, i, v, j, n, e - i);
        },
        None => {},
    }
}

/// A word stands at a place where it stands at a place of a text that reads
/// alike behind its first letter.
proof fn lemma_word(u: Seq<char>, i: int, v: Seq<char>, j: int, n: int, word: Seq<char>)
    requires
        alike(u, i + 1, v, j + 1, n),
        0 <= i,
        0 <= j,
        u[i] == v[j],
        word.len() > 0,
        forall|k: int|
            1 <= k < word.len() ==> #[trigger] word[k] != 'r' && word[k] != ';' && word[k] != '#',
        word_at(u, i, word),
    ensures
        word_at(v, j, word),
        word.len() <= n + 1,
{
    if word.len() > n + 1 {
        let k = n + 1;
        assert(lower_char(u[i + k]) == word[k]);
        assert(stops(u[i + 1 + n]));
        assert(word[k] != 'r');
    }
    assert forall|k: int| 0 <= k < word.len() implies lower_char(#[trigger] v[j + k]) == word[k] by {
        assert(lower_char(u[i + k]) == word[k]);
        if k > 0 {
            lemma_same_char(u, i + 1, v, j + 1, n, k - 1);
            assert(i + 1 + (k - 1) == i + k);
            assert(j + 1 + (k - 1) == j + k);
        }
    }
}

proof fn lemma_back(u: Seq<char>, i: int, v: Seq<char>, j: int, n: int)
    requires
        alike(u, i, v, j, n),
    ensures
        alike(v, j, u, i, n),
{
    assert forall|k: int| 0 <= k < n implies #[trigger] v[j + k] == u[i + k] by {
        lemma_same_char(u, i, v, j, n, k);
    }
}

proof fn lemma_opened(u: Seq<char>, i: int, v: Seq<char>, j: int, n: int)
    requires
        alike(u, i + 1, v, j + 1, n),
        0 <= i,
        0 <= j,
        u[i] == v[j],
    ensures
        match (opened_at(u, i), opened_at(v, j)) {
            (Some(e), Some(f)) => e - i == f - j && 4 <= e - i <= n + 1,
            (None, None) => true,
            _ => false,
        },
{
    reveal_strlit("rgba(");
    reveal_strlit("rgb(");
    lemma_back(u, i + 1, v, j + 1, n);
    if word_at(u, i, "rgba("@) {
        lemma_word(u, i, v, j, n, "rgba("@);
    }
    if word_at(v, j, "rgba("@) {
        lemma_word(v, j, u, i, n, "rgba("@);
    }
    if word_at(u, i, "rgb("@) {
        lemma_word(u, i, v, j, n, "rgb("@);
    }
    if word_at(v, j, "rgb("@) {
        lemma_word(v, j, u, i, n, "rgb("@);
    }
}

proof fn lemma_rgb(u: Seq<char>, i: int, v: Seq<char>, j: int, n: int)
    requires
        alike(u, i + 1, v, j + 1, n),
        0 <= i,
        0 <= j,
        u[i] == v[j],
    ensures
        same_reading(rgb_at(u, i), i + 1, rgb_at(v, j), j + 1, 3, n),
{
    lemma_opened(u, i, v, j, n);
    match opened_at(u, i) {
        Some(a) => {
            lemma_pair(u, i + 1, v, j + 1, n, a - (i + 1));
            match channel_and_comma(u, a) {
                Some((r, b)) => {
                    lemma_pair(u, i + 1, v, j + 1, n, b - (i + 1));
                    match channel_and_comma(u, b) {
                        Some((g, c)) => {
                            lemma_channel(u, i + 1, v, j + 1, n, c - (i + 1));
                            match channel_at(u, c) {
                                Some((bl, e)) => {
                                    if e - (i + 1) < n {
                                        lemma_same_char(u, i + 1, v, j + 1, n, e - (i + 1));
                                    }
                                },
                                None => {},
                            }
                        },
                        None => {},
                    }
                },
                None => {},
            }
        },
        None => {},
    }
}

proof fn lemma_hex(u: Seq<char>, i: int, v: Seq<char>, j: int, n: int)
    requires
        alike(u, i, v, j, n),
    ensures
        same_reading(hex_at(u, i), i, hex_at(v, j), j, 3, n),
{
    lemma_hex_run(u, i, v, j, n, 0);
    let width = hex_end(u, i) - i;
    assert forall|k: int| 0 <= k < width implies #[trigger] u[i + k] == v[j + k] by {
        lemma_same_char(u, i, v, j, n, k);
    }
    if width == 3 || width == 6 {
        assert(u[i + 0] == v[j + 0]);
        assert(u[i + 1] == v[j + 1]);
        assert(u[i + 2] == v[j + 2]);
    }
    if width == 6 {
        assert(u[i + 3] == v[j + 3]);
        assert(u[i + 4] == v[j + 4]);
        assert(u[i + 5] == v[j + 5]);
    }
}

/// What is put at a place is put at the same place of a text that reads alike
/// from there on.
proof fn lemma_place(u: Seq<char>, i: int, v: Seq<char>, j: int, n: int)
    requires
        alike(u, i + 1, v, j + 1, n),
        0 <= i,
        0 <= j,
        u[i] == v[j],
    ensures
        same_reading(put_at_place(u, i), i, put_at_place(v, j), j, 1, n + 1),
{
    lemma_hex(u, i + 1, v, j + 1, n);
    lemma_rgb(u, i, v, j, n);
}

/// What is put at a place ends behind it, and within the text.
proof fn lemma_range(s: Seq<char>, i: int)
    requires
        0 <= i < s.len(),
    ensures
        put_at_place(s, i) matches Some((t, e)) ==> i < e <= s.len(),
{
    lemma_place(s, i, s, i, s.len() - i - 1);
}

// ---- declarations --------------------------------------------------------------

/// What stands before a text does not change how it is recoloured from a place
/// of it on.
proof fn lemma_behind(p: Seq<char>, t: Seq<char>, i: int)
    requires
        0 <= i <= t.len(),
    ensures
        recoloured_from(p + t, p.len() + i) == recoloured_from(t, i),
    decreases t.len() - i,
{
    let s = p + t;
    if i < t.len() {
        assert(alike(s, p.len() + i + 1, t, i + 1, t.len() - i - 1)) by {
            assert forall|k: int| 0 <= k < t.len() - i - 1 implies #[trigger] s[p.len() + i + 1 + k]
                == t[i + 1 + k] by {}
        }
        lemma_place(s, p.len() + i, t, i, t.len() - i - 1);
        match put_at_place(t, i) {
            Some((x, e)) => {
                lemma_behind(p, t, e);
            },
            None => {
                lemma_behind(p, t, i + 1);
            },
        }
    }
}

proof fn lemma_split(a: Seq<char>, b: Seq<char>, i: int)
    requires
        0 <= i <= a.len(),
    ensures
        recoloured_from(a + seq![';'] + b, i) == recoloured_from(a, i) + seq![';']
            + recoloured_from(b, 0),
    decreases a.len() - i,
{
    let s = a + seq![';'] + b;
    let rest = seq![';'] + recoloured_from(b, 0);
    if i < a.len() {
        let n = a.len() - i - 1;
        assert(alike(s, i + 1, a, i + 1, n)) by {
            assert forall|k: int| 0 <= k < n implies #[trigger] s[i + 1 + k] == a[i + 1 + k] by {}
            assert(s[i + 1 + n] == ';');
        }
        lemma_place(s, i, a, i, n);
        match put_at_place(a, i) {
            Some((x, e)) => {
                lemma_split(a, b, e);
                assert(recoloured_from(a, i) =~= x + recoloured_from(a, e));
                assert(recoloured_from(s, i) =~= x + recoloured_from(s, e));
                assert(recoloured_from(s, i) =~= recoloured_from(a, i) + seq![';']
                    + recoloured_from(b, 0));
            },
            None => {
                lemma_split(a, b, i + 1);
                assert(recoloured_from(s, i) =~= recoloured_from(a, i) + seq![';']
                    + recoloured_from(b, 0));
            },
        }
    } else {
        assert(s[i] == ';');
        assert(put_at_place(s, i) is None);
        lemma_behind(a + seq![';'], b, 0);
        assert(recoloured_from(s, i) =~= recoloured_from(a, i) + seq![';'] + recoloured_from(b, 0));
    }
}

/// Each declaration is recoloured on its own: what stands on one side of a
/// semicolon is recoloured as if the other side were not there, and nothing
/// between them is lost, added or put elsewhere.
pub proof fn law_each_declaration_is_recoloured_on_its_own(a: Seq<char>, b: Seq<char>)
    ensures
        recoloured_from(a + ";"@ + b, 0) == recoloured_from(a, 0) + ";"@ + recoloured_from(b, 0),
{
    reveal_strlit(";");
    assert(";"@ =~= seq![';']);
    lemma_split(a, b, 0);
}

// ---- recolouring again ---------------------------------------------------------

/// A colour of the brand's hue is as green as it is blue, or greener, and each
/// of its channels is one.
proof fn lemma_green(k: int, s: int, d: int)
    requires
        0 <= k <= FINE,
        0 <= s <= d <= 255,
        d > 0,
    ensures
        ({
            let c = green_at(k, s, d);
            &&& 0 <= c.0 <= 255
            &&& 0 <= c.1 <= 255
            &&& 0 <= c.2 <= 255
            &&& c.2 <= c.1
        }),
{
    let t = if k <= FINE - k {
        k
    } else {
        FINE - k
    };
    let kd = k * d;
    let ts = t * s;
    let w = FINE * d;
    assert(0 <= ts <= kd) by (nonlinear_arith)
        requires
            0 <= t <= k,
            0 <= s <= d,
            kd == k * d,
            ts == t * s,
    ;
    assert(w > 0) by (nonlinear_arith)
        requires
            d > 0,
            w == FINE * d,
    ;
    lemma_channel_grows(30 * kd + ts, 30 * (kd + ts), 30 * w);
    assert((510 * (30 * (kd + ts)) + 30 * w) / (2 * (30 * w)) == (510 * (kd + ts) + w) / (2 * w))
        by (nonlinear_arith)
        requires
            0 <= kd + ts,
            w > 0,
    {
        let x = 510 * (kd + ts) + w;
        let y = 2 * w;
        vstd::arithmetic::div_mod::lemma_truncate_middle(x, y, 30);
        vstd::arithmetic::div_mod::lemma_div_multiples_vanish_quotient(30, x, y);
        assert(510 * (30 * (kd + ts)) + 30 * w == 30 * x);
        assert(2 * (30 * w) == 30 * y);
    }
    lemma_channel_grows(0, kd - ts, w);
    lemma_channel_grows(0, kd + ts, w);
    lemma_channel_grows(0, 30 * kd + ts, 30 * w);
}

proof fn lemma_channel_grows(a: int, b: int, d: int)
    requires
        0 <= a <= b,
        d > 0,
    ensures
        0 <= channel_of(a, d) <= channel_of(b, d) <= 255,
{
    let x = 510 * a + d;
    let y = 510 * b + d;
    vstd::arithmetic::div_mod::lemma_div_is_ordered(x, y, 2 * d);
    vstd::arithmetic::div_mod::lemma_div_pos_is_pos(x, 2 * d);
}

/// Where a colour goes it is not moved from again.
proof fn lemma_not_again(c: Colour)
    requires
        moved_to(c) is Some,
    ensures
        ({
            let m = moved_to(c)->0;
            &&& 0 <= m.0 <= 255
            &&& 0 <= m.1 <= 255
            &&& 0 <= m.2 <= 255
            &&& moved_to((m.0 as u8, m.1 as u8, m.2 as u8)) is None
        }),
{
    let k = lemma_moved(c);
    lemma_green(k, span(c), widest(lights(c)));
}

/// What a recoloured text goes on with from a place: what the text did, or the
/// start of a colour where a colour started.
proof fn lemma_first(s: Seq<char>, i: int)
    requires
        0 <= i <= s.len(),
    ensures
        i == s.len() ==> recoloured_from(s, i).len() == 0,
        i < s.len() ==> recoloured_from(s, i).len() > 0,
        i < s.len() && !stops(s[i]) ==> recoloured_from(s, i)[0] == s[i],
        i < s.len() && stops(s[i]) ==> stops(recoloured_from(s, i)[0]),
{
    reveal_strlit("#");
    reveal_strlit("rgb(");
    if i < s.len() {
        lemma_range(s, i);
    }
}

/// A recoloured text reads like the text it was made from, up to where the next
/// colour starts.
proof fn lemma_recoloured_alike(s: Seq<char>, i: int, v: Seq<char>, j: int) -> (n: int)
    requires
        0 <= i <= s.len(),
        0 <= j <= v.len(),
        v.skip(j) == recoloured_from(s, i),
    ensures
        alike(s, i, v, j, n),
    decreases s.len() - i,
{
    lemma_first(s, i);
    if i == s.len() {
        assert(v.skip(j).len() == v.len() - j);
        0
    } else if stops(s[i]) {
        assert(v[j] == v.skip(j)[0]);
        0
    } else {
        assert(put_at_place(s, i) is None);
        assert(v[j] == v.skip(j)[0]);
        assert(v.skip(j + 1) =~= v.skip(j).skip(1));
        assert((seq![s[i]] + recoloured_from(s, i + 1)).skip(1) =~= recoloured_from(s, i + 1));
        let n = lemma_recoloured_alike(s, i + 1, v, j + 1);
        assert forall|k: int| 0 <= k < n + 1 implies #[trigger] s[i + k] == v[j + k] by {
            if k > 0 {
                lemma_same_char(s, i + 1, v, j + 1, n, k - 1);
                assert(i + 1 + (k - 1) == i + k);
                assert(j + 1 + (k - 1) == j + k);
            }
        }
        n + 1
    }
}

proof fn lemma_digits(n: int)
    requires
        0 <= n <= 255,
    ensures
        hex_pair(hex_two(n)[0], hex_two(n)[1]) == n,
        hex_value(hex_two(n)[0]) is Some,
        hex_value(hex_two(n)[1]) is Some,
        hex_two(n).len() == 2,
{
    let h = n / 16;
    let l = n % 16;
    assert(hex_value(crate::json::hex_digit(h)) == Some(h));
    assert(hex_value(crate::json::hex_digit(l)) == Some(l));
}

/// Nothing is put at the start of a colour that was put there, nor within it.
proof fn lemma_hex_stays(m: (int, int, int), rest: Seq<char>, j: int)
    requires
        0 <= m.0 <= 255,
        0 <= m.1 <= 255,
        0 <= m.2 <= 255,
        moved_to((m.0 as u8, m.1 as u8, m.2 as u8)) is None,
        rest.len() > 0 ==> hex_value(rest[0]) is None,
        0 <= j < hex_text(m).len(),
    ensures
        put_at_place(hex_text(m) + rest, j) is None,
{
    reveal_strlit("#");
    lemma_digits(m.0);
    lemma_digits(m.1);
    lemma_digits(m.2);
    let v = hex_text(m) + rest;
    assert(hex_text(m).len() == 7);
    assert(v[0] == '#');
    assert(v[1] == hex_two(m.0)[0] && v[2] == hex_two(m.0)[1]);
    assert(v[3] == hex_two(m.1)[0] && v[4] == hex_two(m.1)[1]);
    assert(v[5] == hex_two(m.2)[0] && v[6] == hex_two(m.2)[1]);
    if j == 0 {
        if rest.len() > 0 {
            assert(v[7] == rest[0]);
        }
        reveal_with_fuel(hex_end, 8);
        assert(hex_end(v, 1) == 7);
    } else {
        assert(hex_value(v[j]) is Some);
    }
}

/// A number reads as it was written, where no digit follows it.
proof fn lemma_number_back(v: Seq<char>, at: int, n: nat)
    requires
        n <= 255,
        0 <= at,
        at + dec(n).len() <= v.len(),
        forall|k: int| 0 <= k < dec(n).len() ==> #[trigger] v[at + k] == dec(n)[k],
        at + dec(n).len() < v.len() ==> !is_digit(v[at + dec(n).len()]),
    ensures
        number_from(v, at, 0) == (n as int, at + dec(n).len()),
        1 <= dec(n).len() <= 3,
        forall|k: int| 0 <= k < dec(n).len() ==> is_digit(#[trigger] dec(n)[k]),
{
    reveal_with_fuel(dec, 4);
    reveal_with_fuel(number_from, 5);
    if n < 10 {
        assert(dec(n) =~= seq![digit(n)]);
        assert(v[at + 0] == dec(n)[0]);
    } else if n < 100 {
        assert(dec(n) =~= seq![digit(n / 10), digit(n % 10)]);
        assert(v[at + 0] == dec(n)[0]);
        assert(v[at + 1] == dec(n)[1]);
    } else {
        assert(dec(n) =~= seq![digit(n / 100), digit((n / 10) % 10), digit(n % 10)]);
        assert(v[at + 0] == dec(n)[0]);
        assert(v[at + 1] == dec(n)[1]);
        assert(v[at + 2] == dec(n)[2]);
    }
}

/// A channel reads as it was written, with a space before it or without.
proof fn lemma_channel_back(v: Seq<char>, at: int, n: nat)
    requires
        n <= 255,
        0 <= at,
        at + dec(n).len() <= v.len(),
        forall|k: int| 0 <= k < dec(n).len() ==> #[trigger] v[at + k] == dec(n)[k],
        at + dec(n).len() < v.len() ==> !is_digit(v[at + dec(n).len()]),
    ensures
        channel_at(v, at) == Some((n as u8, at + dec(n).len())),
        at > 0 && v[at - 1] == ' ' ==> channel_at(v, at - 1) == Some((n as u8, at + dec(n).len())),
        forall|k: int| 0 <= k < dec(n).len() ==> is_digit(#[trigger] dec(n)[k]),
        1 <= dec(n).len(),
{
    lemma_number_back(v, at, n);
    assert(v[at + 0] == dec(n)[0]);
    assert(is_digit(dec(n)[0]));
    assert(spaces_end(v, at) == at);
    if at > 0 && v[at - 1] == ' ' {
        assert(spaces_end(v, at - 1) == spaces_end(v, at));
    }
}

/// Where the parts of a colour stand in a text that begins with it.
spec fn laid_out(v: Seq<char>, m: (int, int, int), b: int, c: int, end: int) -> bool {
    &&& b == 4 + dec(m.0 as nat).len() + 2
    &&& c == b + dec(m.1 as nat).len() + 2
    &&& end == c + dec(m.2 as nat).len()
    &&& end <= v.len()
    &&& v[0] == 'r' && v[1] == 'g' && v[2] == 'b' && v[3] == '('
    &&& v[b - 2] == ',' && v[b - 1] == ' '
    &&& v[c - 2] == ',' && v[c - 1] == ' '
    &&& forall|k: int| 0 <= k < dec(m.0 as nat).len() ==> #[trigger] v[4 + k] == dec(m.0 as nat)[k]
    &&& forall|k: int| 0 <= k < dec(m.1 as nat).len() ==> #[trigger] v[b + k] == dec(m.1 as nat)[k]
    &&& forall|k: int| 0 <= k < dec(m.2 as nat).len() ==> #[trigger] v[c + k] == dec(m.2 as nat)[k]
    &&& end < v.len() ==> !is_digit(v[end])
}

proof fn lemma_laid_out(m: (int, int, int), rest: Seq<char>) -> (at: (int, int))
    requires
        rest.len() > 0 ==> !is_digit(rest[0]),
    ensures
        laid_out(rgb_text(m) + rest, m, at.0, at.1, rgb_text(m).len() as int),
{
    reveal_strlit("rgb(");
    reveal_strlit(", ");
    let v = rgb_text(m) + rest;
    let x = dec(m.0 as nat);
    let y = dec(m.1 as nat);
    let z = dec(m.2 as nat);
    let b: int = 4 + x.len() as int + 2;
    let c: int = b + y.len() + 2;
    let end: int = c + z.len();
    let first = "rgb("@ + x;
    let second = first + ", "@ + y;
    assert(first.len() == b - 2);
    assert(second.len() == c - 2);
    assert(rgb_text(m) == second + ", "@ + z);
    assert(rgb_text(m).len() == end);
    assert forall|k: int| 0 <= k < x.len() implies #[trigger] v[4 + k] == x[k] by {
        assert(second[4 + k] == first[4 + k]);
    }
    assert forall|k: int| 0 <= k < y.len() implies #[trigger] v[b + k] == y[k] by {
        assert(second[b + k] == y[k]);
    }
    assert forall|k: int| 0 <= k < z.len() implies #[trigger] v[c + k] == z[k] by {}
    assert(first[0] == 'r' && first[1] == 'g' && first[2] == 'b' && first[3] == '(');
    assert(second[0] == 'r' && second[1] == 'g' && second[2] == 'b' && second[3] == '(');
    assert(second[b - 2] == ',' && second[b - 1] == ' ');
    assert(v[c - 2] == ',' && v[c - 1] == ' ');
    if rest.len() > 0 {
        assert(v[end] == rest[0]);
    }
    (b, c)
}

/// A colour in numbers reads as it was written.
proof fn lemma_rgb_back(v: Seq<char>, m: (int, int, int), b: int, c: int, end: int)
    requires
        0 <= m.0 <= 255,
        0 <= m.1 <= 255,
        0 <= m.2 <= 255,
        laid_out(v, m, b, c, end),
    ensures
        rgb_at(v, 0) matches Some((colour, e)) ==> colour == (m.0 as u8, m.1 as u8, m.2 as u8),
{
    reveal_strlit("rgb(");
    reveal_strlit("rgba(");
    lemma_channel_back(v, 4, m.0 as nat);
    lemma_channel_back(v, b, m.1 as nat);
    lemma_channel_back(v, c, m.2 as nat);
    assert(!word_at(v, 0, "rgba("@)) by {
        assert(lower_char(v[0int + 3]) != "rgba("@[3]);
    }
    assert(spaces_end(v, b - 2) == b - 2);
    assert(spaces_end(v, c - 2) == c - 2);
    assert(channel_and_comma(v, 4) == Some((m.0 as u8, b - 1)));
    assert(channel_and_comma(v, b - 1) == Some((m.1 as u8, c - 1)));
}

proof fn lemma_rgb_stays(m: (int, int, int), rest: Seq<char>, j: int)
    requires
        0 <= m.0 <= 255,
        0 <= m.1 <= 255,
        0 <= m.2 <= 255,
        moved_to((m.0 as u8, m.1 as u8, m.2 as u8)) is None,
        rest.len() > 0 ==> !is_digit(rest[0]),
        0 <= j < rgb_text(m).len(),
    ensures
        put_at_place(rgb_text(m) + rest, j) is None,
{
    let v = rgb_text(m) + rest;
    let end = rgb_text(m).len() as int;
    let (b, c) = lemma_laid_out(m, rest);
    if j == 0 {
        lemma_rgb_back(v, m, b, c, end);
        lemma_not_put(v, (m.0 as u8, m.1 as u8, m.2 as u8));
    } else {
        lemma_within(v, m, b, c, end, j);
    }
}

/// Behind its first letter a colour in numbers holds nothing a colour starts
/// with.
proof fn lemma_within(v: Seq<char>, m: (int, int, int), b: int, c: int, end: int, j: int)
    requires
        0 <= m.0 <= 255,
        0 <= m.1 <= 255,
        0 <= m.2 <= 255,
        laid_out(v, m, b, c, end),
        0 < j < end,
    ensures
        !stops(v[j]),
{
    lemma_channel_back(v, 4, m.0 as nat);
    lemma_channel_back(v, b, m.1 as nat);
    lemma_channel_back(v, c, m.2 as nat);
    if 4 <= j < b - 2 {
        assert(v[4 + (j - 4)] == dec(m.0 as nat)[j - 4]);
    } else if b <= j < c - 2 {
        assert(v[b + (j - b)] == dec(m.1 as nat)[j - b]);
    } else if c <= j {
        assert(v[c + (j - c)] == dec(m.2 as nat)[j - c]);
    }
}

proof fn lemma_not_put(v: Seq<char>, m: Colour)
    requires
        v.len() > 0,
        v[0] == 'r',
        rgb_at(v, 0) matches Some((colour, e)) ==> colour == m,
        moved_to(m) is None,
    ensures
        put_at_place(v, 0) is None,
{
}

/// What stands where a colour ended is no part of a colour there either.
proof fn lemma_ends(s: Seq<char>, i: int)
    requires
        0 <= i < s.len(),
        put_at_place(s, i) is Some,
    ensures
        ({
            let (t, e) = put_at_place(s, i)->0;
            &&& e < s.len() && s[i] == '#' ==> hex_value(s[e]) is None
            &&& e < s.len() && s[i] != '#' ==> !is_digit(s[e])
        }),
{
    lemma_range(s, i);
    if s[i] == '#' {
        lemma_hex_over(s, i + 1);
    } else {
        let a = opened_at(s, i)->0;
        let (red, b) = channel_and_comma(s, a)->0;
        let (green, c) = channel_and_comma(s, b)->0;
        lemma_number_over(s, spaces_end(s, c), 0);
    }
}

proof fn lemma_hex_over(s: Seq<char>, i: int)
    requires
        0 <= i,
    ensures
        hex_end(s, i) < s.len() ==> hex_value(s[hex_end(s, i)]) is None,
    decreases s.len() - i,
{
    if i < s.len() && hex_value(s[i]) is Some {
        lemma_hex_over(s, i + 1);
    }
}

proof fn lemma_number_over(s: Seq<char>, i: int, n: int)
    ensures
        0 <= number_from(s, i, n).1 < s.len() ==> !is_digit(s[number_from(s, i, n).1]),
    decreases s.len() - i,
{
    if 0 <= i < s.len() && is_digit(s[i]) {
        lemma_number_over(s, i + 1, n * 10 + (s[i] as u32 - 48));
    }
}

/// Nothing is left to put anywhere in a text that has been recoloured.
proof fn lemma_nothing_left(s: Seq<char>, i: int, j: int)
    requires
        0 <= i <= s.len(),
        0 <= j < recoloured_from(s, i).len(),
    ensures
        put_at_place(recoloured_from(s, i), j) is None,
    decreases s.len() - i,
{
    lemma_first(s, i);
    lemma_range(s, i);
    let v = recoloured_from(s, i);
    let (t, e) = match put_at_place(s, i) {
        Some((t, e)) => (t, e),
        None => (seq![s[i]], i + 1),
    };
    let rest = recoloured_from(s, e);
    assert(v =~= t + rest);
    if j >= t.len() {
        lemma_nothing_left(s, e, j - t.len());
        let n = v.len() - j - 1;
        assert(alike(v, j + 1, rest, j - t.len() + 1, n)) by {
            assert forall|k: int| 0 <= k < n implies #[trigger] v[j + 1 + k] == rest[j - t.len() + 1
                + k] by {}
        }
        lemma_place(v, j, rest, j - t.len(), n);
    } else if put_at_place(s, i) is Some {
        lemma_first(s, e);
        lemma_ends(s, i);
        let (c, end) = if s[i] == '#' {
            hex_at(s, i + 1)->0
        } else {
            rgb_at(s, i)->0
        };
        lemma_not_again(c);
        let m = moved_to(c)->0;
        if s[i] == '#' {
            assert(t == hex_text(m));
            lemma_hex_stays(m, rest, j);
        } else {
            assert(t == rgb_text(m));
            lemma_rgb_stays(m, rest, j);
        }
    } else {
        assert(v.skip(1) =~= rest);
        let n = lemma_recoloured_alike(s, i + 1, v, 1);
        lemma_place(s, i, v, 0, n);
    }
}

/// Recolouring a stylesheet twice is recolouring it once: a colour that has been
/// moved is not the primary any more, and nothing around it reads as one.
pub proof fn law_recolouring_again_changes_nothing(css: Seq<char>)
    ensures
        recoloured_from(recoloured_from(css, 0), 0) == recoloured_from(css, 0),
{
    let v = recoloured_from(css, 0);
    assert forall|j: int| 0 <= j < v.len() implies #[trigger] put_at_place(v, j) is None by {
        lemma_nothing_left(css, 0, j);
    }
    super::brand::law_what_is_not_the_primary_is_left_as_it_was(v);
}

} // verus!
