//! What cutting, keeping and matching come to, said of the characters themselves.

use vstd::prelude::*;

use crate::cluster::settings::strings_of;
use crate::json::JsonV;
use crate::list::{called, keep, lemma_find, lemma_found, lookup};
use crate::text::{
    begins, cut, first_in, fits, is_white, lemma_cut_some, trim_back, trim_front, trimmed,
    without_front,
};

verus! {

/// Whether a word stands in a text at a place, with a mark or an end of the text
/// on either side of it.
pub open spec fn stands_at(s: Seq<char>, sep: char, word: Seq<char>, i: int) -> bool {
    &&& 0 <= i <= s.len() - word.len()
    &&& s.subrange(i, i + word.len()) == word
    &&& i == 0 || s[i - 1] == sep
    &&& i + word.len() == s.len() || s[i + word.len()] == sep
}

/// Whether a word stands somewhere in a text between two marks.
pub open spec fn stands(s: Seq<char>, sep: char, word: Seq<char>) -> bool {
    exists|i: int| stands_at(s, sep, word, i)
}

spec fn closed_at(s: Seq<char>, sep: char, word: Seq<char>, i: int) -> bool {
    &&& stands_at(s, sep, word, i)
    &&& i + word.len() < s.len()
}

spec fn tail_from(s: Seq<char>, sep: char) -> int {
    s.len() - cut(s, sep).last().len()
}

proof fn lemma_tail(s: Seq<char>, sep: char)
    ensures
        cut(s, sep).len() > 0,
        0 <= tail_from(s, sep) <= s.len(),
        cut(s, sep).last() == s.skip(tail_from(s, sep)),
        !cut(s, sep).last().contains(sep),
        tail_from(s, sep) == 0 || s[tail_from(s, sep) - 1] == sep,
    decreases s.len(),
{
    lemma_cut_some(s, sep);
    if s.len() > 0 {
        let t = s.drop_last();
        lemma_tail(t, sep);
        if s.last() == sep {
            assert(cut(s, sep).last() =~= Seq::<char>::empty());
            assert(s.skip(s.len() as int) =~= Seq::<char>::empty());
        } else {
            let k = tail_from(t, sep);
            assert(cut(s, sep).last() == cut(t, sep).last().push(s.last()));
            assert(t.skip(k).push(s.last()) =~= s.skip(k));
            assert(tail_from(s, sep) == k);
            assert forall|j: int| 0 <= j < s.len() - k implies s.skip(k)[j] != sep by {
                if j < t.len() - k {
                    assert(t.skip(k)[j] != sep);
                }
            }
            if k > 0 {
                assert(t[k - 1] == s[k - 1]);
            }
        }
    } else {
        assert(cut(s, sep) =~= seq![Seq::<char>::empty()]);
        assert(s.skip(0) =~= Seq::<char>::empty());
    }
}

proof fn lemma_closed(s: Seq<char>, sep: char, word: Seq<char>)
    requires
        !word.contains(sep),
    ensures
        cut(s, sep).drop_last().contains(word) <==> exists|i: int| closed_at(s, sep, word, i),
    decreases s.len(),
{
    lemma_tail(s, sep);
    let parts = cut(s, sep);
    if s.len() == 0 {
        assert(parts.drop_last() =~= Seq::empty());
        assert(!exists|i: int| closed_at(s, sep, word, i));
    } else {
        let t = s.drop_last();
        let before = cut(t, sep);
        lemma_tail(t, sep);
        lemma_closed(t, sep, word);
        let k = tail_from(t, sep);
        assert forall|i: int| closed_at(t, sep, word, i) implies closed_at(s, sep, word, i) by {
            assert(s.subrange(i, i + word.len()) =~= t.subrange(i, i + word.len()));
        }
        assert forall|i: int|
            closed_at(s, sep, word, i) && i + word.len() < t.len() implies closed_at(
            t,
            sep,
            word,
            i,
        ) by {
            assert(s.subrange(i, i + word.len()) =~= t.subrange(i, i + word.len()));
        }
        if s.last() == sep {
            assert(parts.drop_last() =~= before);
            assert(before =~= before.drop_last().push(before.last()));
            if before.last() == word {
                assert(s.subrange(k, k + word.len()) =~= t.skip(k));
                assert(closed_at(s, sep, word, k));
            }
            if exists|i: int| closed_at(s, sep, word, i) {
                let i = choose|i: int| closed_at(s, sep, word, i);
                if i + word.len() < t.len() {
                    assert(closed_at(t, sep, word, i));
                    assert(before.drop_last().contains(word));
                    let j = before.drop_last().index_of(word);
                    assert(before[j] == word);
                } else {
                    assert(i + word.len() == t.len());
                    assert(s.subrange(i, i + word.len()) =~= t.skip(i));
                    if i < k {
                        assert(word[k - 1 - i] == s[k - 1]);
                        assert(word.contains(sep));
                    } else if k < i {
                        assert(t.skip(k)[i - 1 - k] == s[i - 1]);
                        assert(before.last().contains(sep));
                    }
                    assert(before.last() == word);
                    assert(before[before.len() - 1] == word);
                }
            }
            if before.contains(word) {
                let j = before.index_of(word);
                if j < before.len() - 1 {
                    assert(before.drop_last()[j] == word);
                    let i = choose|i: int| closed_at(t, sep, word, i);
                    assert(closed_at(s, sep, word, i));
                }
            }
        } else {
            assert(parts.drop_last() =~= before.drop_last());
            if exists|i: int| closed_at(s, sep, word, i) {
                let i = choose|i: int| closed_at(s, sep, word, i);
                assert(i + word.len() < t.len());
                assert(closed_at(t, sep, word, i));
            }
            if exists|i: int| closed_at(t, sep, word, i) {
                let i = choose|i: int| closed_at(t, sep, word, i);
                assert(closed_at(s, sep, word, i));
            }
        }
    }
}

/// The pieces of a text that is cut at a mark are the words that stand in it
/// between two marks.
pub proof fn law_a_text_is_cut_into_the_words_between_marks(
    s: Seq<char>,
    sep: char,
    word: Seq<char>,
)
    requires
        !word.contains(sep),
    ensures
        cut(s, sep).contains(word) <==> stands(s, sep, word),
{
    let parts = cut(s, sep);
    lemma_tail(s, sep);
    lemma_closed(s, sep, word);
    let k = tail_from(s, sep);
    assert(parts =~= parts.drop_last().push(parts.last()));
    if parts.contains(word) {
        let j = parts.index_of(word);
        if j < parts.len() - 1 {
            assert(parts.drop_last()[j] == word);
            let i = choose|i: int| closed_at(s, sep, word, i);
            assert(stands_at(s, sep, word, i));
        } else {
            assert(s.subrange(k, k + word.len()) =~= s.skip(k));
            assert(stands_at(s, sep, word, k));
        }
    }
    if stands(s, sep, word) {
        let i = choose|i: int| stands_at(s, sep, word, i);
        if i + word.len() < s.len() {
            assert(closed_at(s, sep, word, i));
            let j = parts.drop_last().index_of(word);
            assert(parts[j] == word);
        } else {
            assert(s.subrange(i, i + word.len()) =~= s.skip(i));
            if i < k {
                assert(word[k - 1 - i] == s[k - 1]);
                assert(word.contains(sep));
            } else if k < i {
                assert(s.skip(k)[i - 1 - k] == s[i - 1]);
                assert(parts.last().contains(sep));
            }
            assert(parts[parts.len() - 1] == word);
        }
    }
}

/// What is kept of a list is all of it that passes, and nothing else.
pub proof fn law_what_passes_is_kept<T>(s: Seq<T>, p: spec_fn(T) -> bool, x: T)
    ensures
        keep(s, p).contains(x) <==> s.contains(x) && p(x),
    decreases s.len(),
{
    if s.len() > 0 {
        let d = s.drop_last();
        law_what_passes_is_kept(d, p, x);
        assert(s =~= d.push(s.last()));
        if keep(s, p).contains(x) {
            let i = keep(s, p).index_of(x);
            if i < keep(d, p).len() {
                assert(keep(d, p)[i] == x);
                let k = d.index_of(x);
                assert(s[k] == x);
            } else {
                assert(s[s.len() - 1] == x);
            }
        }
        if s.contains(x) && p(x) {
            let k = s.index_of(x);
            if k < d.len() {
                assert(d[k] == x);
                let i = keep(d, p).index_of(x);
                assert(keep(s, p)[i] == x);
            } else {
                assert(keep(s, p)[keep(s, p).len() - 1] == x);
            }
        }
    }
}

/// A star at the end of a pattern stands for whatever follows.
proof fn lemma_star_fits(s: Seq<char>)
    ensures
        fits(seq!['*'], s),
    decreases s.len(),
{
    let p = seq!['*'];
    assert(p.skip(1) =~= Seq::<char>::empty());
    if s.len() > 0 {
        lemma_star_fits(s.skip(1));
    } else {
        assert(fits(p.skip(1), s));
    }
}

/// A name that begins as a pattern does before the star at its end fits it.
pub proof fn law_a_star_at_the_end_takes_whatever_follows(head: Seq<char>, rest: Seq<char>)
    ensures
        fits(head + seq!['*'], head + rest),
    decreases head.len(),
{
    let p = head + seq!['*'];
    let s = head + rest;
    if head.len() == 0 {
        assert(p =~= seq!['*']);
        lemma_star_fits(s);
    } else {
        assert(p.skip(1) =~= head.skip(1) + seq!['*']);
        assert(s.skip(1) =~= head.skip(1) + rest);
        law_a_star_at_the_end_takes_whatever_follows(head.skip(1), rest);
        if p[0] == '*' {
            lemma_more_fits(p.skip(1), s.skip(1));
            assert(fits(p, s.skip(1)));
        }
    }
}

proof fn lemma_more_fits(p: Seq<char>, s: Seq<char>)
    requires
        fits(p, s),
    ensures
        fits(seq!['*'] + p, s),
{
    assert((seq!['*'] + p).skip(1) =~= p);
}

/// A name stands for what it stands for where it first stands.
pub proof fn law_a_name_stands_for_its_first_value<V>(
    s: Seq<(Seq<char>, V)>,
    key: Seq<char>,
    i: int,
)
    ensures
        0 <= i < s.len() && s[i].0 == key && (forall|j: int| 0 <= j < i ==> (#[trigger] s[j]).0
            != key) ==> lookup(s, key) == Some(s[i].1),
        (forall|j: int| 0 <= j < s.len() ==> (#[trigger] s[j]).0 != key) ==> lookup(s, key)
            == None::<V>,
{
    let q = called::<V>(key);
    if 0 <= i < s.len() && s[i].0 == key && (forall|j: int| 0 <= j < i ==> (#[trigger] s[j]).0
        != key) {
        lemma_find(s, q, i);
    }
    lemma_found(s, q);
}

/// The texts of a list are those of its values that are texts.
pub proof fn law_the_texts_of_a_list(a: Seq<JsonV>, x: Seq<char>)
    ensures
        strings_of(a).contains(x) <==> a.contains(JsonV::Text(x)),
    decreases a.len(),
{
    if a.len() > 0 {
        let d = a.drop_last();
        law_the_texts_of_a_list(d, x);
        assert(a =~= d.push(a.last()));
        if a.contains(JsonV::Text(x)) {
            let k = a.index_of(JsonV::Text(x));
            if k < d.len() {
                assert(d[k] == JsonV::Text(x));
                let j = strings_of(d).index_of(x);
                assert(strings_of(a)[j] == x);
            } else {
                assert(strings_of(a)[strings_of(a).len() - 1] == x);
            }
        }
        if strings_of(a).contains(x) {
            let j = strings_of(a).index_of(x);
            if j < strings_of(d).len() {
                assert(strings_of(d)[j] == x);
                let k = d.index_of(JsonV::Text(x));
                assert(a[k] == JsonV::Text(x));
            } else {
                assert(a[a.len() - 1] == JsonV::Text(x));
            }
        }
    }
}

/// Whether a text occurs in another at a place.
pub open spec fn occurs_at(s: Seq<char>, sub: Seq<char>, i: int) -> bool {
    0 <= i <= s.len() - sub.len() && s.subrange(i, i + sub.len()) == sub
}

/// Whether a text occurs in another.
pub open spec fn occurs(s: Seq<char>, sub: Seq<char>) -> bool {
    exists|i: int| occurs_at(s, sub, i)
}

/// A text is found in another where it first occurs, and nowhere where it does not.
pub proof fn law_a_text_is_found_where_it_first_occurs(s: Seq<char>, sub: Seq<char>)
    ensures
        match first_in(s, sub) {
            Some(i) => occurs_at(s, sub, i as int) && forall|j: int|
                0 <= j < i ==> !#[trigger] occurs_at(s, sub, j),
            None => !occurs(s, sub),
        },
    decreases s.len(),
{
    if begins(s, sub) {
        assert(s.subrange(0, sub.len() as int) =~= s.take(sub.len() as int));
        assert(occurs_at(s, sub, 0));
    } else {
        if occurs_at(s, sub, 0) {
            assert(s.subrange(0, sub.len() as int) =~= s.take(sub.len() as int));
            assert(false);
        }
        if s.len() > 0 {
            let t = s.skip(1);
            law_a_text_is_found_where_it_first_occurs(t, sub);
            assert forall|j: int| j > 0 && #[trigger] occurs_at(s, sub, j) implies occurs_at(
                t,
                sub,
                j - 1,
            ) by {
                assert(t.subrange(j - 1, j - 1 + sub.len()) =~= s.subrange(j, j + sub.len()));
            }
            match first_in(t, sub) {
                Some(at) => {
                    let i = at as int;
                    assert(t.subrange(i, i + sub.len()) =~= s.subrange(i + 1, i + 1 + sub.len()));
                },
                None => {
                    if occurs(s, sub) {
                        let j = choose|j: int| occurs_at(s, sub, j);
                        assert(occurs_at(t, sub, j - 1));
                    }
                },
            }
        } else if occurs(s, sub) {
            let j = choose|j: int| occurs_at(s, sub, j);
            assert(j == 0);
        }
    }
}

/// Whether a character is a space, a tab or the end of a line.
pub open spec fn blank(c: char) -> bool {
    c == ' ' || c == '\t' || c == '\n' || c == '\r'
}

/// Whether a character is one of those that are printed: no space, no control.
pub open spec fn printed(c: char) -> bool {
    '!' <= c && c <= '~'
}

proof fn lemma_front(w: Seq<char>, s: Seq<char>)
    requires
        forall|i: int| 0 <= i < w.len() ==> blank(#[trigger] w[i]),
        s.len() == 0 || printed(s[0]),
    ensures
        trim_front(w + s) == s,
    decreases w.len(),
{
    if w.len() == 0 {
        assert(w + s =~= s);
    } else {
        assert(is_white(w[0]));
        assert((w + s).skip(1) =~= w.skip(1) + s);
        lemma_front(w.skip(1), s);
    }
}

proof fn lemma_back(s: Seq<char>, w: Seq<char>)
    requires
        forall|i: int| 0 <= i < w.len() ==> blank(#[trigger] w[i]),
        s.len() == 0 || printed(s.last()),
    ensures
        trim_back(s + w) == s,
    decreases w.len(),
{
    if w.len() == 0 {
        assert(s + w =~= s);
    } else {
        assert(is_white(w.last()));
        assert((s + w).drop_last() =~= s + w.drop_last());
        lemma_back(s, w.drop_last());
    }
}

/// Blanks before and after a text are taken off it, and nothing else is.
pub proof fn law_a_text_is_trimmed_of_the_blanks_round_it(
    before: Seq<char>,
    s: Seq<char>,
    after: Seq<char>,
)
    requires
        forall|i: int| 0 <= i < before.len() ==> blank(#[trigger] before[i]),
        forall|i: int| 0 <= i < after.len() ==> blank(#[trigger] after[i]),
        s.len() > 0 ==> printed(s[0]) && printed(s.last()),
    ensures
        trimmed(before + s + after) == s,
{
    if s.len() > 0 {
        assert(before + s + after =~= before + (s + after));
        lemma_front(before, s + after);
        lemma_back(s, after);
    } else {
        let all = before + after;
        assert(before + s + after =~= all);
        assert(forall|i: int| 0 <= i < all.len() ==> blank(#[trigger] all[i]));
        lemma_front(all, s);
        assert(all + s =~= all);
        assert(trim_back(s) == s);
    }
}

/// A mark repeated at the front of a text is taken off it.
pub proof fn law_a_mark_is_taken_off_the_front(mark: char, n: nat, s: Seq<char>)
    requires
        s.len() == 0 || s[0] != mark,
    ensures
        without_front(Seq::new(n, |i: int| mark) + s, seq![mark]) == s,
    decreases n,
{
    let m = seq![mark];
    let all = Seq::new(n, |i: int| mark) + s;
    if n == 0 {
        assert(all =~= s);
        if begins(s, m) {
            assert(s.take(1)[0] == m[0]);
        }
    } else {
        assert(all.take(1) =~= m);
        assert(all.skip(1) =~= Seq::new((n - 1) as nat, |i: int| mark) + s);
        law_a_mark_is_taken_off_the_front(mark, (n - 1) as nat, s);
    }
}

/// A pattern without stars fits the text that it is, and no other.
pub proof fn law_a_pattern_without_stars_fits_itself_alone(p: Seq<char>, s: Seq<char>)
    requires
        !p.contains('*'),
    ensures
        fits(p, s) <==> p == s,
    decreases p.len(),
{
    if p.len() == 0 {
        if s.len() == 0 {
            assert(p =~= s);
        }
    } else {
        assert(p[0] != '*');
        let q = p.skip(1);
        assert forall|i: int| 0 <= i < q.len() implies q[i] != '*' by {
            assert(p[i + 1] != '*');
        }
        assert(p =~= seq![p[0]] + q);
        if s.len() > 0 {
            law_a_pattern_without_stars_fits_itself_alone(q, s.skip(1));
            assert(s =~= seq![s[0]] + s.skip(1));
        }
    }
}

proof fn lemma_star_then(x: Seq<char>, tail: Seq<char>)
    ensures
        fits(seq!['*'] + tail, x + tail),
    decreases x.len(),
{
    let p = seq!['*'] + tail;
    let s = x + tail;
    assert(p.skip(1) =~= tail);
    if x.len() == 0 {
        assert(s =~= tail);
        lemma_fits_itself(tail);
    } else {
        assert(s.skip(1) =~= x.skip(1) + tail);
        lemma_star_then(x.skip(1), tail);
    }
}

proof fn lemma_fits_itself(p: Seq<char>)
    ensures
        fits(p, p),
    decreases p.len(),
{
    if p.len() > 0 {
        lemma_fits_itself(p.skip(1));
        if p[0] == '*' {
            lemma_more_fits(p.skip(1), p.skip(1));
            assert(seq!['*'] + p.skip(1) =~= p);
            assert(fits(p, p.skip(1)));
        }
    }
}

/// A star in a pattern stands for whatever is between what stands before it and behind it.
pub proof fn law_a_star_stands_for_whatever_is_between(
    head: Seq<char>,
    x: Seq<char>,
    tail: Seq<char>,
)
    ensures
        fits(head + seq!['*'] + tail, head + x + tail),
    decreases head.len(),
{
    let p = head + seq!['*'] + tail;
    let s = head + x + tail;
    if head.len() == 0 {
        assert(p =~= seq!['*'] + tail);
        assert(s =~= x + tail);
        lemma_star_then(x, tail);
    } else {
        assert(p.skip(1) =~= head.skip(1) + seq!['*'] + tail);
        assert(s.skip(1) =~= head.skip(1) + x + tail);
        law_a_star_stands_for_whatever_is_between(head.skip(1), x, tail);
        if p[0] == '*' {
            lemma_more_fits(p.skip(1), s.skip(1));
            assert(seq!['*'] + p.skip(1) =~= p);
            assert(fits(p, s.skip(1)));
        }
    }
}

/// What fits a pattern begins as it does before its first star.
pub proof fn law_what_fits_begins_as_the_pattern_does(
    head: Seq<char>,
    rest: Seq<char>,
    s: Seq<char>,
)
    requires
        !head.contains('*'),
        fits(head + rest, s),
    ensures
        begins(s, head),
    decreases head.len(),
{
    let p = head + rest;
    if head.len() > 0 {
        assert(p[0] == head[0]);
        assert(head[0] != '*');
        assert(p.skip(1) =~= head.skip(1) + rest);
        assert forall|i: int| 0 <= i < head.skip(1).len() implies head.skip(1)[i] != '*' by {
            assert(head[i + 1] != '*');
        }
        law_what_fits_begins_as_the_pattern_does(head.skip(1), rest, s.skip(1));
        let n = head.len() as int;
        assert(s.take(n) =~= seq![s[0]] + s.skip(1).take(n - 1));
        assert(head =~= seq![head[0]] + head.skip(1));
    } else {
        assert(s.take(0) =~= head);
    }
}

} // verus!
