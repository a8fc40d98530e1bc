//! What finding, cutting and putting in place come to.

use vstd::prelude::*;

use crate::json::{escaped_char, escaped_text};
use crate::laws::words::{
    law_a_text_is_found_where_it_first_occurs, occurs, occurs_at,
};
use crate::list::{before, lemma_find};
use crate::number::{digits, fraction, is_digit, noughts, pointed, shifted};
use crate::size::ends;
use crate::text::{
    begins, cut_at, first_in, halves, joined, substituted, without_back, without_front,
};

verus! {

/// A text is parted where another first occurs in it, and is not where it does not.
pub proof fn law_a_text_is_parted_where_another_first_occurs(s: Seq<char>, sep: Seq<char>)
    ensures
        match halves(s, sep) {
            Some((a, b)) => s == a + sep + b && forall|j: int|
                0 <= j < a.len() ==> !#[trigger] occurs_at(s, sep, j),
            None => !occurs(s, sep),
        },
{
    law_a_text_is_found_where_it_first_occurs(s, sep);
    match first_in(s, sep) {
        Some(at) => {
            let i = at as int;
            assert(s =~= s.take(i) + s.subrange(i, i + sep.len()) + s.skip(i + sep.len()));
        },
        None => {},
    }
}

proof fn lemma_joined_front(x: Seq<char>, parts: Seq<Seq<char>>, sep: Seq<char>)
    requires
        parts.len() > 0,
    ensures
        joined(seq![x] + parts, sep) == x + sep + joined(parts, sep),
    decreases parts.len(),
{
    let all = seq![x] + parts;
    assert(all.last() == parts.last());
    assert(all.drop_last() =~= seq![x] + parts.drop_last());
    if parts.len() == 1 {
        assert(all.drop_last() =~= seq![x]);
        assert(joined(all.drop_last(), sep) == x);
    } else {
        lemma_joined_front(x, parts.drop_last(), sep);
        assert(joined(all, sep) =~= x + sep + joined(parts, sep));
    }
}

proof fn lemma_cut_at_some(s: Seq<char>, sep: Seq<char>)
    ensures
        cut_at(s, sep).len() > 0,
{
}

/// What is put in place of a text stands wherever that occurred, and everything else stays.
pub proof fn law_a_text_is_put_in_place_of_another(
    s: Seq<char>,
    from: Seq<char>,
    to: Seq<char>,
    a: Seq<char>,
    b: Seq<char>,
)
    requires
        from.len() > 0,
    ensures
        !occurs(s, from) ==> substituted(s, from, to) == s,
        halves(s, from) == Some((a, b)) ==> substituted(s, from, to) == a + to + substituted(
            b,
            from,
            to,
        ),
{
    law_a_text_is_found_where_it_first_occurs(s, from);
    if !occurs(s, from) {
        match first_in(s, from) {
            Some(i) => {
                assert(occurs_at(s, from, i as int));
            },
            None => {},
        }
        assert(cut_at(s, from) == seq![s]);
        assert(joined(seq![s], to) == s);
    }
    if halves(s, from) == Some((a, b)) {
        assert(cut_at(s, from) == seq![a] + cut_at(b, from));
        lemma_cut_at_some(b, from);
        lemma_joined_front(a, cut_at(b, from), to);
    }
}

/// What stands at the front or at the back of a text is taken off as often as it stands
/// there, and nothing else is.
pub proof fn law_what_stands_at_the_ends_is_taken_off(s: Seq<char>, x: Seq<char>)
    requires
        x.len() > 0,
    ensures
        without_front(x + s, x) == without_front(s, x),
        !begins(s, x) ==> without_front(s, x) == s,
        without_back(s + x, x) == without_back(s, x),
        !ends(s, x) ==> without_back(s, x) == s,
{
    assert((x + s).take(x.len() as int) =~= x);
    assert((x + s).skip(x.len() as int) =~= s);
    let t = s + x;
    assert(t.skip(t.len() - x.len()) =~= x);
    assert(t.take(t.len() - x.len()) =~= s);
}

/// A name comes before another where it has the lesser character at the first place where
/// they differ, or is the front of the other.
pub proof fn law_which_of_two_names_comes_first(
    same: Seq<char>,
    x: char,
    y: char,
    a: Seq<char>,
    b: Seq<char>,
)
    ensures
        x < y ==> before(same.push(x) + a, same.push(y) + b),
        x > y ==> !before(same.push(x) + a, same.push(y) + b),
        before(same, same.push(y) + b),
        !before(same.push(x) + a, same),
    decreases same.len(),
{
    let u = same.push(x) + a;
    let v = same.push(y) + b;
    if same.len() == 0 {
        assert(u[0] == x && v[0] == y);
    } else {
        let rest = same.skip(1);
        law_which_of_two_names_comes_first(rest, x, y, a, b);
        assert(u.skip(1) =~= rest.push(x) + a);
        assert(v.skip(1) =~= rest.push(y) + b);
        assert(u[0] == same[0] && v[0] == same[0]);
    }
}

/// The characters that a text in quotes cannot hold as they are.
pub proof fn law_the_characters_that_are_escaped(c: char)
    ensures
        escaped_char('"') == seq!['\\', '"'],
        escaped_char('\\') == seq!['\\', '\\'],
        escaped_char('\n') == seq!['\\', 'n'],
        escaped_char('\r') == seq!['\\', 'r'],
        escaped_char('\t') == seq!['\\', 't'],
        c != '"' && c != '\\' && c as u32 >= 32 ==> escaped_char(c) == seq![c],
        (c as u32) < 32 ==> escaped_char(c).len() > 1 && escaped_char(c)[0] == '\\',
{
}

/// A text is escaped character by character.
pub proof fn law_a_text_is_escaped_piece_by_piece(a: Seq<char>, b: Seq<char>)
    ensures
        escaped_text(a + b) == escaped_text(a) + escaped_text(b),
    decreases b.len(),
{
    if b.len() == 0 {
        assert(a + b =~= a);
        assert(escaped_text(a) + escaped_text(b) =~= escaped_text(a));
    } else {
        assert((a + b).drop_last() =~= a + b.drop_last());
        law_a_text_is_escaped_piece_by_piece(a, b.drop_last());
        assert(escaped_text(a + b) =~= escaped_text(a) + escaped_text(b));
    }
}

/// A number with a point in it is read as what stands before the point and behind it; a sign
/// before it makes it one below nothing.
pub proof fn law_a_number_is_read_about_its_point(whole: Seq<char>, rest: Seq<char>)
    requires
        digits(whole),
        digits(rest),
        whole.len() > 0,
    ensures
        fraction(whole + "."@ + rest) == Some((false, whole, rest)),
        fraction("-"@ + whole + "."@ + rest) == Some((true, whole, rest)),
        fraction("+"@ + whole + "."@ + rest) == Some((false, whole, rest)),
{
    reveal_strlit(".");
    reveal_strlit("-");
    reveal_strlit("+");
    let t = whole + "."@ + rest;
    assert forall|i: int| 0 <= i < t.len() implies t[i] != 'e' && t[i] != 'E' && (i != whole.len()
        ==> t[i] != '.') by {
        if i < whole.len() {
            assert(is_digit(whole[i]));
        } else if i > whole.len() {
            assert(is_digit(rest[i - whole.len() - 1]));
        }
    }
    lemma_find(t, |c: char| c == 'e' || c == 'E', t.len() as int);
    assert(t.take(t.len() as int) =~= t);
    lemma_find(t, |c: char| c == '.', whole.len() as int);
    assert(t.take(whole.len() as int) =~= whole);
    assert(t.skip(whole.len() as int + 1) =~= rest);
    assert(pointed(t) == Some((whole, rest)));
    assert(is_digit(whole[0]));
    assert(t[0] == whole[0]);
    let m = "-"@ + whole + "."@ + rest;
    let p = "+"@ + whole + "."@ + rest;
    assert(m.skip(1) =~= t);
    assert(p.skip(1) =~= t);
    assert(m[0] == '-' && p[0] == '+');
}

/// A number with an exponent is read with its point moved by that: to the right past noughts
/// that are put in, to the left past digits that are then behind it.
pub proof fn law_an_exponent_moves_the_point(whole: Seq<char>, by: nat)
    requires
        whole.len() > 0,
        by <= whole.len(),
    ensures
        shifted(whole, Seq::empty(), by as int) == (
            whole + Seq::new(by, |i: int| '0'),
            Seq::<char>::empty(),
        ),
        shifted(whole, Seq::empty(), -(by as int)) == (
            whole.take(whole.len() - by),
            whole.skip(whole.len() - by),
        ),
{
    let none = Seq::<char>::empty();
    assert(noughts(by as int) =~= Seq::new(by, |i: int| '0'));
    assert(whole + none + noughts(by as int) =~= whole + Seq::new(by, |i: int| '0'));
    if by == 0 {
        assert(whole + none.take(0) =~= whole + Seq::new(by, |i: int| '0'));
        assert(none.skip(0) =~= none);
        assert(whole.take(whole.len() as int) =~= whole + none.take(0));
        assert(whole.skip(whole.len() as int) =~= none);
    } else {
        assert(whole.skip(whole.len() - by) + none =~= whole.skip(whole.len() - by));
    }
}

} // verus!
