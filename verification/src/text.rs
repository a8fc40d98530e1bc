//! Text: the handful of string operations the rest of the library is written
//! in, each with what it gives stated over the characters of the string.

use vstd::prelude::*;

use crate::list::{lemma_take, push_to};

verus! {

/// `String::push`: the character goes to the end of the string.
pub assume_specification[ String::push ](s: &mut String, c: char)
    ensures
        final(s)@ == old(s)@.push(c),
;

/// Whether a character has the Unicode property `Uppercase`.
pub uninterp spec fn upper(c: char) -> bool;

/// `char::is_uppercase`: whether the character has the Unicode property
/// `Uppercase`. Of the ASCII characters the letters `A` to `Z` have it.
pub assume_specification[ char::is_uppercase ](c: char) -> (r: bool)
    ensures
        r == upper(c),
        'A' <= c && c <= 'Z' ==> r,
        (c as u32) < 128 && !('A' <= c && c <= 'Z') ==> !r,
;

/// A string in lower case, letter by letter as Unicode has it.
pub uninterp spec fn lowercase(s: Seq<char>) -> Seq<char>;

/// `str::to_lowercase`: the string in lower case as Unicode has it. A string of
/// ASCII characters has its letters `A` to `Z` put in lower case and is
/// otherwise as it was.
pub assume_specification[ str::to_lowercase ](s: &str) -> (r: String)
    ensures
        r@ == lowercase(s@),
        (forall|i: int| 0 <= i < s@.len() ==> (#[trigger] s@[i] as u32) < 128) ==> r@ == lowered(
            s@,
        ),
;

/// A string as a programmer is shown it.
pub uninterp spec fn debug_form(s: Seq<char>) -> Seq<char>;

/// `<str as Debug>::fmt`, by way of `format`: the string as it is shown to a
/// programmer, the same whenever it is asked for. How that looks is not said
/// here.
#[verifier::external_body]
pub(crate) fn debug_text(s: &str) -> (r: String)
    ensures
        r@ == debug_form(s@),
{
    format!("{:?}", s)
}

// ---- characters ----------------------------------------------------------------

/// The character of a decimal digit.
pub open spec fn digit(n: nat) -> char {
    (48 + n) as char
}

fn digit_char(n: u64) -> (c: char)
    requires
        n < 10,
    ensures
        c == digit(n as nat),
{
    (48u8 + n as u8) as char
}

/// The characters of a string, one by one.
pub fn chars_of(s: &str) -> (v: Vec<char>)
    ensures
        v@ == s@,
{
    let mut v: Vec<char> = Vec::new();
    for c in it: s.chars()
        invariant
            v@ == it.seq().take(it.index() as int),
            it.seq() == s@,
    {
        v.push(c);
        assert(v@ =~= it.seq().take(it.index() as int + 1));
    }
    assert(v@ =~= s@);
    v
}

/// The string of some characters.
pub fn string_of(v: &Vec<char>) -> (s: String)
    ensures
        s@ == v@,
{
    let mut s = String::new();
    for i in 0..v.len()
        invariant
            s@ == v@.take(i as int),
    {
        s.push(v[i]);
        assert(s@ =~= v@.take(i + 1));
    }
    assert(s@ =~= v@);
    s
}

/// Whether two strings hold the same characters.
pub fn same(a: &str, b: &str) -> (r: bool)
    ensures
        r == (a@ == b@),
{
    a.to_owned() == b.to_owned()
}

// ---- numbers -------------------------------------------------------------------

/// A number in decimal.
pub open spec fn dec(n: nat) -> Seq<char>
    decreases n,
{
    if n < 10 {
        seq![digit(n)]
    } else {
        dec(n / 10).push(digit(n % 10))
    }
}

/// No two numbers are written alike.
pub proof fn lemma_dec(a: nat, b: nat)
    requires
        dec(a) == dec(b),
    ensures
        a == b,
    decreases a,
{
    lemma_dec_some(a / 10);
    lemma_dec_some(b / 10);
    assert(dec(a).last() == digit(a % 10));
    assert(dec(b).last() == digit(b % 10));
    assert(digit(a % 10) as nat == 48 + a % 10);
    assert(digit(b % 10) as nat == 48 + b % 10);
    if a >= 10 && b >= 10 {
        assert(dec(a).drop_last() =~= dec(a / 10));
        assert(dec(b).drop_last() =~= dec(b / 10));
        lemma_dec(a / 10, b / 10);
    } else if a >= 10 {
        assert(dec(a).len() == 1);
    } else if b >= 10 {
        assert(dec(b).len() == 1);
    }
}

proof fn lemma_dec_some(n: nat)
    ensures
        dec(n).len() > 0,
{
}

/// A whole number in decimal, with its sign when it is below nothing.
pub open spec fn dec_int(n: int) -> Seq<char> {
    if n < 0 {
        "-"@ + dec((-n) as nat)
    } else {
        dec(n as nat)
    }
}

/// A number written in decimal.
pub fn decimal(n: u64) -> (s: String)
    ensures
        s@ == dec(n as nat),
{
    decimal_wide(n as u128)
}

/// A number that may be larger, written in decimal.
pub fn decimal_wide(n: u128) -> (s: String)
    ensures
        s@ == dec(n as nat),
    decreases n,
{
    if n < 10 {
        let mut s = String::new();
        s.push(digit_char(n as u64));
        assert(s@ =~= dec(n as nat));
        s
    } else {
        let mut s = decimal_wide(n / 10);
        s.push(digit_char((n % 10) as u64));
        s
    }
}

/// A signed number written in decimal.
pub fn decimal_signed(n: i64) -> (s: String)
    ensures
        s@ == dec_int(n as int),
{
    if n < 0 {
        let m: u64 = (-(n as i128)) as u64;
        "-".to_owned().concat(decimal(m).as_str())
    } else {
        decimal(n as u64)
    }
}

// ---- parts of a string ---------------------------------------------------------

/// A string cut at every separator.
pub open spec fn cut(s: Seq<char>, sep: char) -> Seq<Seq<char>>
    decreases s.len(),
{
    if s.len() == 0 {
        seq![Seq::<char>::empty()]
    } else {
        let before = cut(s.drop_last(), sep);
        if s.last() == sep {
            before.push(Seq::<char>::empty())
        } else {
            before.drop_last().push(before.last().push(s.last()))
        }
    }
}

pub proof fn lemma_cut_some(s: Seq<char>, sep: char)
    ensures
        cut(s, sep).len() > 0,
    decreases s.len(),
{
    if s.len() > 0 {
        lemma_cut_some(s.drop_last(), sep);
    }
}

/// A string cut at every separator.
pub fn split(s: &str, sep: char) -> (parts: Vec<String>)
    ensures
        parts.deep_view() == cut(s@, sep),
        parts@.len() > 0,
{
    let v = chars_of(s);
    let mut parts: Vec<String> = Vec::new();
    let mut last = String::new();
    assert(parts.deep_view().push(last@) =~= cut(v@.take(0), sep));
    for i in 0..v.len()
        invariant
            parts.deep_view().push(last@) == cut(v@.take(i as int), sep),
    {
        proof {
            lemma_take(v@, i as int);
        }
        let ghost before = parts.deep_view();
        if v[i] == sep {
            let ghost was = last@;
            push_to(&mut parts, last);
            last = String::new();
            assert(parts.deep_view().push(last@) =~= cut(v@.take(i + 1), sep));
        } else {
            let ghost was = last@;
            last.push(v[i]);
            assert(before.push(was).drop_last() =~= before);
            assert(parts.deep_view().push(last@) =~= cut(v@.take(i + 1), sep));
        }
    }
    let ghost before = parts.deep_view();
    let ghost was = last@;
    push_to(&mut parts, last);
    assert(v@.take(v@.len() as int) =~= s@);
    parts
}

/// The characters that count as white space.
pub open spec fn is_white(c: char) -> bool {
    let n = c as u32;
    9 <= n <= 13 || n == 32 || n == 0x85 || n == 0xa0 || n == 0x1680 || 0x2000 <= n <= 0x200a || n
        == 0x2028 || n == 0x2029 || n == 0x202f || n == 0x205f || n == 0x3000
}

pub fn white(c: char) -> (r: bool)
    ensures
        r == is_white(c),
{
    let n: u32 = c as u32;
    (9 <= n && n <= 13) || n == 32 || n == 0x85 || n == 0xa0 || n == 0x1680 || (0x2000 <= n && n
        <= 0x200a) || n == 0x2028 || n == 0x2029 || n == 0x202f || n == 0x205f || n == 0x3000
}

/// A string without the white space at its start.
pub open spec fn trim_front(s: Seq<char>) -> Seq<char>
    decreases s.len(),
{
    if s.len() > 0 && is_white(s[0]) {
        trim_front(s.skip(1))
    } else {
        s
    }
}

/// A string without the white space at its end.
pub open spec fn trim_back(s: Seq<char>) -> Seq<char>
    decreases s.len(),
{
    if s.len() > 0 && is_white(s.last()) {
        trim_back(s.drop_last())
    } else {
        s
    }
}

/// A string without the white space around it.
pub open spec fn trimmed(s: Seq<char>) -> Seq<char> {
    trim_back(trim_front(s))
}

/// Some of a list of characters, as a list of its own.
pub fn part(v: &Vec<char>, from: usize, to: usize) -> (r: Vec<char>)
    requires
        from <= to <= v@.len(),
    ensures
        r@ == v@.subrange(from as int, to as int),
{
    let mut r: Vec<char> = Vec::new();
    for i in from..to
        invariant
            from <= i <= to <= v@.len(),
            r@ == v@.subrange(from as int, i as int),
    {
        r.push(v[i]);
        assert(r@ =~= v@.subrange(from as int, i + 1));
    }
    r
}

/// A string without the white space around it.
pub fn trim(s: &str) -> (r: String)
    ensures
        r@ == trimmed(s@),
{
    let v = chars_of(s);
    let mut from: usize = 0;
    assert(v@.skip(0) =~= v@);
    while from < v.len() && white(v[from])
        invariant
            from <= v@.len(),
            trim_front(v@) == trim_front(v@.skip(from as int)),
        decreases v@.len() - from,
    {
        assert(v@.skip(from as int).skip(1) =~= v@.skip(from + 1));
        from += 1;
    }
    let mut to: usize = v.len();
    assert(v@.subrange(from as int, to as int) =~= v@.skip(from as int));
    while to > from && white(v[to - 1])
        invariant
            from <= to <= v@.len(),
            trimmed(v@) == trim_back(v@.subrange(from as int, to as int)),
        decreases to,
    {
        assert(v@.subrange(from as int, to as int).drop_last() =~= v@.subrange(
            from as int,
            to - 1,
        ));
        to -= 1;
    }
    let r = part(&v, from, to);
    string_of(&r)
}

/// An ASCII letter in lower case, any other character as it is.
pub open spec fn lower_char(c: char) -> char {
    if 'A' <= c && c <= 'Z' {
        (c as u32 + 32) as char
    } else {
        c
    }
}

/// A string with its ASCII letters in lower case.
pub open spec fn lowered(s: Seq<char>) -> Seq<char> {
    s.map_values(|c: char| lower_char(c))
}

/// A string with its ASCII letters in lower case.
pub fn lower(s: &str) -> (r: String)
    ensures
        r@ == lowered(s@),
{
    let v = chars_of(s);
    let mut r = String::new();
    for i in 0..v.len()
        invariant
            r@ == lowered(v@.take(i as int)),
    {
        let c = v[i];
        if 'A' <= c && c <= 'Z' {
            r.push((c as u8 + 32) as char);
        } else {
            r.push(c);
        }
        assert(r@ =~= lowered(v@.take(i + 1)));
    }
    assert(v@.take(v@.len() as int) =~= v@);
    r
}

/// An ASCII letter in capitals, any other character as it is.
pub open spec fn raised_char(c: char) -> char {
    if 'a' <= c && c <= 'z' {
        (c as u32 - 32) as char
    } else {
        c
    }
}

/// A string with its ASCII letters in capitals.
pub open spec fn raised(s: Seq<char>) -> Seq<char> {
    s.map_values(|c: char| raised_char(c))
}

/// A string with its ASCII letters in capitals.
pub fn raise(s: &str) -> (r: String)
    ensures
        r@ == raised(s@),
{
    let v = chars_of(s);
    let mut r = String::new();
    for i in 0..v.len()
        invariant
            r@ == raised(v@.take(i as int)),
    {
        let c = v[i];
        if 'a' <= c && c <= 'z' {
            r.push((c as u8 - 32) as char);
        } else {
            r.push(c);
        }
        assert(r@ =~= raised(v@.take(i + 1)));
    }
    assert(v@.take(v@.len() as int) =~= v@);
    r
}

/// Whether a string starts with another.
pub open spec fn begins(s: Seq<char>, head: Seq<char>) -> bool {
    head.len() <= s.len() && s.take(head.len() as int) == head
}

/// Whether a string starts with another.
pub fn starts_with(s: &str, head: &str) -> (r: bool)
    ensures
        r == begins(s@, head@),
{
    strip_prefix(s, head).is_some()
}

/// What follows a prefix, when the string starts with it.
pub fn strip_prefix(s: &str, head: &str) -> (r: Option<String>)
    ensures
        match r {
            Some(rest) => begins(s@, head@) && rest@ == s@.skip(head@.len() as int),
            None => !begins(s@, head@),
        },
{
    let v = chars_of(s);
    let h = chars_of(head);
    if h.len() > v.len() {
        return None;
    }
    for i in 0..h.len()
        invariant
            h@.len() <= v@.len(),
            h@ == head@,
            v@ == s@,
            forall|j: int| 0 <= j < i ==> v@[j] == h@[j],
    {
        if v[i] != h[i] {
            assert(s@.take(head@.len() as int)[i as int] != head@[i as int]);
            return None;
        }
    }
    assert(s@.take(head@.len() as int) =~= head@);
    let rest = part(&v, h.len(), v.len());
    assert(rest@ =~= s@.skip(head@.len() as int));
    Some(string_of(&rest))
}

/// Whether a character occurs in a string.
pub fn has_char(s: &str, c: char) -> (r: bool)
    ensures
        r == s@.contains(c),
{
    let v = chars_of(s);
    for i in 0..v.len()
        invariant
            v@ == s@,
            forall|j: int| 0 <= j < i ==> v@[j] != c,
    {
        if v[i] == c {
            assert(s@.contains(c));
            return true;
        }
    }
    false
}

/// The strings of a list with a separator between each two.
pub open spec fn joined(parts: Seq<Seq<char>>, sep: Seq<char>) -> Seq<char>
    decreases parts.len(),
{
    if parts.len() == 0 {
        Seq::empty()
    } else if parts.len() == 1 {
        parts[0]
    } else {
        joined(parts.drop_last(), sep) + sep + parts.last()
    }
}

/// The strings of a list with a separator between each two.
pub fn join(parts: &Vec<String>, sep: &str) -> (r: String)
    ensures
        r@ == joined(parts.deep_view(), sep@),
{
    let mut r = String::new();
    for i in 0..parts.len()
        invariant
            r@ == joined(parts.deep_view().take(i as int), sep@),
    {
        proof {
            lemma_take(parts.deep_view(), i as int);
        }
        if i > 0 {
            r.append(sep);
        }
        r.append(parts[i].as_str());
        assert(r@ =~= joined(parts.deep_view().take(i + 1), sep@));
    }
    assert(parts.deep_view().take(parts@.len() as int) =~= parts.deep_view());
    r
}

/// A string cut and joined again is the string.
pub proof fn lemma_joined_cut_by(s: Seq<char>, sep: char)
    ensures
        joined(cut(s, sep), seq![sep]) == s,
    decreases s.len(),
{
    lemma_cut_some(s, sep);
    if s.len() == 0 {
        assert(joined(cut(s, sep), seq![sep]) =~= s);
    } else {
        let before = cut(s.drop_last(), sep);
        lemma_cut_some(s.drop_last(), sep);
        lemma_joined_cut_by(s.drop_last(), sep);
        assert(s =~= s.drop_last().push(s.last()));
        if s.last() == sep {
            let now = before.push(Seq::<char>::empty());
            assert(now.drop_last() =~= before);
            assert(joined(now, seq![sep]) =~= s);
        } else {
            let now = before.drop_last().push(before.last().push(s.last()));
            assert(now.drop_last() =~= before.drop_last());
            assert(joined(now, seq![sep]) =~= joined(before, seq![sep]).push(s.last()));
        }
    }
}

/// A string cut at its dots and joined again is the string.
pub proof fn lemma_joined_cut(s: Seq<char>)
    ensures
        joined(cut(s, '.'), "."@) == s,
{
    reveal_strlit(".");
    assert("."@ =~= seq!['.']);
    lemma_joined_cut_by(s, '.');
}

/// A string with no separator in it is not cut.
pub proof fn lemma_cut_whole(s: Seq<char>, sep: char)
    requires
        !s.contains(sep),
    ensures
        cut(s, sep) == seq![s],
    decreases s.len(),
{
    if s.len() > 0 {
        assert(s.last() == s[s.len() - 1]);
        assert forall|i: int| 0 <= i < s.len() - 1 implies s.drop_last()[i] != sep by {
            assert(s[i] != sep);
        }
        lemma_cut_whole(s.drop_last(), sep);
        assert(s.drop_last().push(s.last()) =~= s);
        assert(cut(s, sep) =~= seq![s]);
    } else {
        assert(s =~= Seq::<char>::empty());
    }
}

/// A string is cut after its first part as it would be without that part.
pub proof fn lemma_cut_after(head: Seq<char>, sep: char, s: Seq<char>)
    requires
        !head.contains(sep),
    ensures
        cut(head.push(sep) + s, sep) == seq![head] + cut(s, sep),
    decreases s.len(),
{
    let all = head.push(sep) + s;
    if s.len() == 0 {
        assert(all =~= head.push(sep));
        assert(all.drop_last() =~= head);
        lemma_cut_whole(head, sep);
        assert(cut(all, sep) =~= seq![head] + cut(s, sep));
    } else {
        assert(all.drop_last() =~= head.push(sep) + s.drop_last());
        lemma_cut_after(head, sep, s.drop_last());
        lemma_cut_some(s.drop_last(), sep);
        assert(cut(all, sep) =~= seq![head] + cut(s, sep));
    }
}

/// Joined parts are longer than the first of them, when there are more.
pub proof fn lemma_joined_longer(parts: Seq<Seq<char>>, sep: Seq<char>)
    requires
        parts.len() > 0,
    ensures
        joined(parts, sep).len() >= parts[0].len() + if parts.len() > 1 {
            sep.len()
        } else {
            0
        },
    decreases parts.len(),
{
    if parts.len() > 1 {
        lemma_joined_longer(parts.drop_last(), sep);
    }
}

// ---- strings in strings --------------------------------------------------------

/// The first place a string occurs in another.
pub open spec fn first_in(s: Seq<char>, sub: Seq<char>) -> Option<nat>
    decreases s.len(),
{
    if begins(s, sub) {
        Some(0)
    } else if s.len() == 0 {
        None
    } else {
        match first_in(s.skip(1), sub) {
            Some(i) => Some(i + 1),
            None => None,
        }
    }
}

/// What stands before a string and what stands behind it, where it first occurs.
pub open spec fn halves(s: Seq<char>, sep: Seq<char>) -> Option<(Seq<char>, Seq<char>)> {
    match first_in(s, sep) {
        Some(i) => Some((s.take(i as int), s.skip(i as int + sep.len()))),
        None => None,
    }
}

proof fn lemma_first_in(s: Seq<char>, sub: Seq<char>)
    ensures
        match first_in(s, sub) {
            Some(i) => i + sub.len() <= s.len(),
            None => true,
        },
    decreases s.len(),
{
    if !begins(s, sub) && s.len() > 0 {
        lemma_first_in(s.skip(1), sub);
    }
}

fn begins_at(v: &Vec<char>, i: usize, h: &Vec<char>) -> (r: bool)
    requires
        i <= v@.len(),
    ensures
        r == begins(v@.skip(i as int), h@),
{
    if h.len() > v.len() - i {
        return false;
    }
    for k in 0..h.len()
        invariant
            i + h.len() <= v.len(),
            forall|j: int| 0 <= j < k ==> v@[i + j] == h@[j],
    {
        if v[i + k] != h[k] {
            assert(v@.skip(i as int).take(h@.len() as int)[k as int] != h@[k as int]);
            return false;
        }
    }
    assert(v@.skip(i as int).take(h@.len() as int) =~= h@);
    true
}

fn place_in(v: &Vec<char>, from: usize, h: &Vec<char>) -> (r: Option<usize>)
    requires
        from <= v@.len(),
    ensures
        match r {
            Some(i) => from <= i && i + h.len() <= v.len() && first_in(v@.skip(from as int), h@)
                == Some((i - from) as nat),
            None => first_in(v@.skip(from as int), h@) is None,
        },
{
    let mut i: usize = from;
    let ghost rest = v@.skip(from as int);
    loop
        invariant
            from <= i <= v@.len(),
            rest == v@.skip(from as int),
            match first_in(v@.skip(i as int), h@) {
                Some(k) => first_in(rest, h@) == Some(k + (i - from) as nat),
                None => first_in(rest, h@) is None,
            },
        decreases v@.len() - i,
    {
        if begins_at(v, i, h) {
            return Some(i);
        }
        if i == v.len() {
            return None;
        }
        assert(v@.skip(i as int).skip(1) =~= v@.skip(i + 1));
        i += 1;
    }
}

/// Whether a string occurs in another.
pub fn has_text_in(s: &str, sub: &str) -> (r: bool)
    ensures
        r == (first_in(s@, sub@) is Some),
{
    let v = chars_of(s);
    let h = chars_of(sub);
    assert(v@.skip(0) =~= v@);
    place_in(&v, 0, &h).is_some()
}

/// What stands before a string and what stands behind it, where it first occurs.
pub fn split_once(s: &str, sep: &str) -> (r: Option<(String, String)>)
    ensures
        r.deep_view() == halves(s@, sep@),
{
    let v = chars_of(s);
    let h = chars_of(sep);
    assert(v@.skip(0) =~= v@);
    match place_in(&v, 0, &h) {
        Some(i) => {
            let a = part(&v, 0, i);
            let b = part(&v, i + h.len(), v.len());
            assert(a@ =~= s@.take(i as int));
            assert(b@ =~= s@.skip(i + sep@.len()));
            Some((string_of(&a), string_of(&b)))
        },
        None => None,
    }
}

/// A string cut wherever another occurs in it; whole where that is empty.
pub open spec fn cut_at(s: Seq<char>, sep: Seq<char>) -> Seq<Seq<char>>
    decreases s.len(),
    via cut_at_ends
{
    match first_in(s, sep) {
        Some(i) => if sep.len() == 0 {
            seq![s]
        } else {
            seq![s.take(i as int)] + cut_at(s.skip(i as int + sep.len()), sep)
        },
        None => seq![s],
    }
}

#[via_fn]
proof fn cut_at_ends(s: Seq<char>, sep: Seq<char>) {
    lemma_first_in(s, sep);
}

/// A string cut wherever another occurs in it; whole where that is empty.
pub fn split_at_text(s: &str, sep: &str) -> (parts: Vec<String>)
    ensures
        parts.deep_view() == cut_at(s@, sep@),
{
    let v = chars_of(s);
    let h = chars_of(sep);
    let mut parts: Vec<String> = Vec::new();
    let mut from: usize = 0;
    let ghost all = cut_at(s@, sep@);
    assert(v@.skip(0) =~= v@);
    assert(parts.deep_view() + cut_at(v@.skip(0), h@) =~= all);
    loop
        invariant
            from <= v@.len(),
            all == cut_at(s@, sep@),
            parts.deep_view() + cut_at(v@.skip(from as int), h@) == all,
        decreases v@.len() - from,
    {
        let ghost before = parts.deep_view();
        let found = if h.len() == 0 {
            None
        } else {
            place_in(&v, from, &h)
        };
        match found {
            Some(i) => {
                let one = part(&v, from, i);
                assert(one@ =~= v@.skip(from as int).take(i - from));
                assert(v@.skip(from as int).skip(i - from + h@.len()) =~= v@.skip(i + h@.len()));
                push_to(&mut parts, string_of(&one));
                assert(parts.deep_view() + cut_at(v@.skip(i + h@.len()), h@) =~= before + cut_at(
                    v@.skip(from as int),
                    h@,
                ));
                from = i + h.len();
            },
            None => {
                let one = part(&v, from, v.len());
                assert(one@ =~= v@.skip(from as int));
                push_to(&mut parts, string_of(&one));
                assert(parts.deep_view() =~= all);
                return parts;
            },
        }
    }
}

/// A string with another put in the place of a third, wherever that occurs.
pub open spec fn substituted(s: Seq<char>, from: Seq<char>, to: Seq<char>) -> Seq<char> {
    joined(cut_at(s, from), to)
}

/// A string with another put in the place of a third, wherever that occurs.
pub fn substitute(s: &str, from: &str, to: &str) -> (r: String)
    ensures
        r@ == substituted(s@, from@, to@),
{
    join(&split_at_text(s, from), to)
}

/// A string without another at its start, as often as it stands there.
pub open spec fn without_front(s: Seq<char>, head: Seq<char>) -> Seq<char>
    decreases s.len(),
{
    if head.len() > 0 && begins(s, head) {
        without_front(s.skip(head.len() as int), head)
    } else {
        s
    }
}

/// A string without another at its end, as often as it stands there.
pub open spec fn without_back(s: Seq<char>, tail: Seq<char>) -> Seq<char>
    decreases s.len(),
{
    if tail.len() > 0 && tail.len() <= s.len() && s.skip(s.len() - tail.len()) == tail {
        without_back(s.take(s.len() - tail.len()), tail)
    } else {
        s
    }
}

/// A string without another at its start, as often as it stands there.
pub fn trim_start_of(s: &str, head: &str) -> (r: String)
    ensures
        r@ == without_front(s@, head@),
{
    let v = chars_of(s);
    let h = chars_of(head);
    let mut from: usize = 0;
    assert(v@.skip(0) =~= v@);
    while h.len() > 0 && begins_at(&v, from, &h)
        invariant
            from <= v@.len(),
            without_front(v@, h@) == without_front(v@.skip(from as int), h@),
        decreases v@.len() - from,
    {
        assert(v@.skip(from as int).skip(h@.len() as int) =~= v@.skip(from + h@.len()));
        assert(from + h.len() <= v.len());
        from = from + h.len();
    }
    let rest = part(&v, from, v.len());
    assert(rest@ =~= v@.skip(from as int));
    string_of(&rest)
}

/// A string without another at its end, as often as it stands there.
pub fn trim_end_of(s: &str, tail: &str) -> (r: String)
    ensures
        r@ == without_back(s@, tail@),
{
    let v = chars_of(s);
    let t = chars_of(tail);
    let mut to: usize = v.len();
    assert(v@.take(v@.len() as int) =~= v@);
    loop
        invariant
            to <= v@.len(),
            v@ == s@,
            t@ == tail@,
            without_back(v@, t@) == without_back(v@.take(to as int), t@),
        decreases to,
    {
        let ghost here = v@.take(to as int);
        let mut ends = t.len() > 0 && t.len() <= to;
        if ends {
            let from: usize = to - t.len();
            let piece = part(&v, from, to);
            assert(piece@ =~= here.skip(here.len() - t@.len()));
            ends = same_chars(&piece, &t);
        }
        if !ends {
            let kept = part(&v, 0, to);
            assert(kept@ =~= here);
            return string_of(&kept);
        }
        assert(here.take(here.len() - t@.len()) =~= v@.take(to - t@.len()));
        to = to - t.len();
    }
}

fn same_chars(a: &Vec<char>, b: &Vec<char>) -> (r: bool)
    ensures
        r == (a@ == b@),
{
    if a.len() != b.len() {
        return false;
    }
    for i in 0..a.len()
        invariant
            a@.len() == b@.len(),
            forall|j: int| 0 <= j < i ==> a@[j] == b@[j],
    {
        if a[i] != b[i] {
            return false;
        }
    }
    assert(a@ =~= b@);
    true
}

/// A string without the white space at its end.
pub fn trim_end(s: &str) -> (r: String)
    ensures
        r@ == trim_back(s@),
{
    let v = chars_of(s);
    let mut to: usize = v.len();
    assert(v@.take(v@.len() as int) =~= v@);
    while to > 0 && white(v[to - 1])
        invariant
            to <= v@.len(),
            trim_back(v@) == trim_back(v@.take(to as int)),
        decreases to,
    {
        assert(v@.take(to as int).drop_last() =~= v@.take(to - 1));
        to -= 1;
    }
    let kept = part(&v, 0, to);
    assert(kept@ =~= v@.take(to as int));
    string_of(&kept)
}

// ---- patterns ------------------------------------------------------------------

/// Whether a string fits a pattern in which `*` stands for any characters.
pub open spec fn fits(p: Seq<char>, s: Seq<char>) -> bool
    decreases p.len() + s.len(),
{
    if p.len() == 0 {
        s.len() == 0
    } else if p[0] == '*' {
        fits(p.skip(1), s) || (s.len() > 0 && fits(p, s.skip(1)))
    } else {
        s.len() > 0 && p[0] == s[0] && fits(p.skip(1), s.skip(1))
    }
}

/// Whether a string fits a pattern in which `*` stands for any characters.
pub fn glob_match(pattern: &str, s: &str) -> (r: bool)
    ensures
        r == fits(pattern@, s@),
{
    let p = chars_of(pattern);
    let v = chars_of(s);
    let n: usize = v.len();
    // row[k]: whether what is left of the pattern fits the last k characters
    let mut row: Vec<bool> = Vec::new();
    row.push(true);
    for k in 0..n
        invariant
            n == v@.len(),
            row@.len() == k + 1,
            forall|j: int|
                0 <= j <= k ==> row@[j] == fits(p@.skip(p@.len() as int), v@.skip(n - j)),
    {
        row.push(false);
    }
    let mut i: usize = p.len();
    while i > 0
        invariant
            i <= p@.len(),
            n == v@.len(),
            row@.len() == n + 1,
            forall|j: int| 0 <= j <= n ==> row@[j] == fits(p@.skip(i as int), v@.skip(n - j)),
        decreases i,
    {
        let ghost here = p@.skip(i - 1);
        assert(here.skip(1) =~= p@.skip(i as int));
        let c = p[i - 1];
        let mut next: Vec<bool> = Vec::new();
        next.push(c == '*' && row[0]);
        assert(v@.skip(n as int).len() == 0);
        assert(next@[0] == fits(here, v@.skip(n as int)));
        for k in 0..n
            invariant
                0 < i <= p@.len(),
                n == v@.len(),
                row@.len() == n + 1,
                here == p@.skip(i - 1),
                here.skip(1) == p@.skip(i as int),
                c == p@[i - 1],
                forall|j: int| 0 <= j <= n ==> row@[j] == fits(p@.skip(i as int), v@.skip(n - j)),
                next@.len() == k + 1,
                forall|j: int| 0 <= j <= k ==> next@[j] == fits(here, v@.skip(n - j)),
        {
            let ghost left = v@.skip(n - (k + 1));
            assert(left.skip(1) =~= v@.skip(n - k));
            assert(row@[k as int] == fits(p@.skip(i as int), v@.skip(n - k)));
            assert(row@[k + 1] == fits(p@.skip(i as int), v@.skip(n - (k + 1))));
            let f = if c == '*' {
                row[k + 1] || next[k]
            } else {
                c == v[n - (k + 1)] && row[k]
            };
            assert(f == fits(here, left));
            next.push(f);
        }
        row = next;
        i -= 1;
    }
    assert(p@.skip(0) =~= pattern@);
    assert(v@.skip(0) =~= s@);
    assert(row@[n as int] == fits(p@.skip(0), v@.skip(n - n)));
    row[n]
}

} // verus!
