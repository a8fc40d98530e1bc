//! What a scrape makes of thousandths, of breakers and of counts.

use vstd::prelude::*;

use crate::api::prometheus::{
    breaker_reading, figure, reading, shown, thousandth, without_leading, without_trailing,
};
use crate::breaker::BreakerV;
use crate::json::{JsonV, NumberV};
use crate::text::{dec, digit};

verus! {

proof fn lemma_first(n: nat)
    ensures
        dec(n).len() > 0,
        n > 0 ==> dec(n)[0] != '0',
    decreases n,
{
    if n >= 10 {
        lemma_first(n / 10);
        assert(dec(n)[0] == dec(n / 10)[0]);
    } else {
        assert(digit(n) as nat == 48 + n);
    }
}

proof fn lemma_digits(m: nat, a: nat, b: nat, c: nat)
    requires
        m > 0,
        a < 10,
        b < 10,
        c < 10,
    ensures
        dec(1000 * m + 100 * a + 10 * b + c) == dec(m) + seq![digit(a), digit(b), digit(c)],
{
    let n = 1000 * m + 100 * a + 10 * b + c;
    let n1 = 100 * m + 10 * a + b;
    let n2 = 10 * m + a;
    assert(n / 10 == n1 && n % 10 == c);
    assert(n1 / 10 == n2 && n1 % 10 == b);
    assert(n2 / 10 == m && n2 % 10 == a);
    assert(dec(n) == dec(n1).push(digit(c)));
    assert(dec(n1) == dec(n2).push(digit(b)));
    assert(dec(n2) == dec(m).push(digit(a)));
    assert(dec(n) =~= dec(m) + seq![digit(a), digit(b), digit(c)]);
}

proof fn lemma_leading(d: Seq<char>)
    requires
        d.len() > 0,
        d[0] != '0',
    ensures
        without_leading(seq!['0', '0', '0'] + d) == d,
{
    let s = seq!['0', '0', '0'] + d;
    assert(s.skip(1) =~= seq!['0', '0'] + d);
    let s1 = seq!['0', '0'] + d;
    assert(s1.skip(1) =~= seq!['0'] + d);
    let s2 = seq!['0'] + d;
    assert(s2.skip(1) =~= d);
    assert(without_leading(d) == d);
    assert(without_leading(s2) == d);
    assert(without_leading(s1) == d);
}

proof fn lemma_plain(n: nat)
    requires
        n > 0,
    ensures
        figure(false, dec(n), ""@).whole == dec(n),
        figure(false, dec(n), ""@).rest.len() == 0,
{
    lemma_first(n);
    reveal_strlit("");
    assert(without_leading(dec(n)) == dec(n));
    assert(without_trailing(""@) == ""@);
}

/// So many thousandths are shown as whole seconds where they are, and with the digits behind
/// the point where they are not.
pub proof fn law_thousandths_are_shown_as_seconds(n: u64, m: nat, a: nat, b: nat, c: nat)
    requires
        m > 0,
        a < 10,
        b < 10,
        c < 10,
        n == 1000 * m + 100 * a + 10 * b + c,
    ensures
        ({
            let text = shown(thousandth(reading(Some(JsonV::Number(NumberV::Whole(n))))));
            &&& a == 0 && b == 0 && c == 0 ==> text == dec(m)
            &&& c > 0 ==> text == dec(m) + "."@ + seq![digit(a), digit(b), digit(c)]
            &&& c == 0 && b > 0 ==> text == dec(m) + "."@ + seq![digit(a), digit(b)]
            &&& c == 0 && b == 0 && a > 0 ==> text == dec(m) + "."@ + seq![digit(a)]
        }),
{
    lemma_digits(m, a, b, c);
    lemma_plain(n as nat);
    lemma_first(m);
    lemma_leading(dec(m));
    reveal_strlit("");
    let f = reading(Some(JsonV::Number(NumberV::Whole(n))));
    let three = seq![digit(a), digit(b), digit(c)];
    let w = seq!['0', '0', '0'] + f.whole;
    assert(w.take(w.len() - 3) =~= seq!['0', '0', '0'] + dec(m));
    assert(w.skip(w.len() - 3) =~= three);
    assert(w.skip(w.len() - 3) + f.rest =~= three);
    assert(digit(a) as nat == 48 + a);
    assert(digit(b) as nat == 48 + b);
    assert(digit(c) as nat == 48 + c);
    assert(three.drop_last() =~= seq![digit(a), digit(b)]);
    let two = seq![digit(a), digit(b)];
    assert(two.drop_last() =~= seq![digit(a)]);
    let one = seq![digit(a)];
    assert(one.drop_last() =~= Seq::<char>::empty());
    assert(without_trailing(Seq::<char>::empty()) == Seq::<char>::empty());
    if c > 0 {
        assert(without_trailing(three) == three);
    } else {
        assert(without_trailing(three) == without_trailing(two));
        if b > 0 {
            assert(without_trailing(two) == two);
        } else {
            assert(without_trailing(two) == without_trailing(one));
            if a > 0 {
                assert(without_trailing(one) == one);
            }
        }
    }
    let t = thousandth(f);
    assert(t.whole == dec(m));
    assert(""@ + dec(m) =~= dec(m));
}

/// What is missing, or is no number, is shown as nothing.
pub proof fn law_what_is_missing_is_shown_as_nothing(b: bool)
    ensures
        shown(reading(None)) == "0"@,
        shown(reading(Some(JsonV::Null))) == "0"@,
        shown(reading(Some(JsonV::Bool(b)))) == "0"@,
{
    reveal_strlit("0");
    reveal_strlit("");
    assert("0"@ =~= seq!['0']);
    assert(without_leading("0"@) == "0"@);
    assert(without_trailing(""@) == ""@);
    assert(""@ + "0"@ =~= "0"@);
}

/// A breaker is read by its own figures, and the parent by what all of them come to.
pub proof fn law_how_a_breaker_is_read(b: BreakerV, parent_used: u64, limit: u64)
    ensures
        ({
            let r = breaker_reading(b, parent_used, limit);
            &&& r.name == b.name
            &&& r.limit == limit
            &&& r.tripped == b.tripped
            &&& b.name == "parent"@ ==> r.used == parent_used
            &&& b.name != "parent"@ ==> r.used == b.used
        }),
{
}

} // verus!
