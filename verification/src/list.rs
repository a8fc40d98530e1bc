//! Lists: searching them, counting in them, and changing them, stated over
//! what their elements stand for.

use vstd::prelude::*;

verus! {

// ---- searching a sequence ------------------------------------------------------

/// The place of the first element that passes, or the length when none does.
pub open spec fn find<T>(s: Seq<T>, p: spec_fn(T) -> bool) -> int
    decreases s.len(),
{
    if s.len() == 0 {
        0
    } else if p(s[0]) {
        0
    } else {
        1 + find(s.skip(1), p)
    }
}

/// Whether an element passes.
pub open spec fn any<T>(s: Seq<T>, p: spec_fn(T) -> bool) -> bool {
    exists|i: int| 0 <= i < s.len() && p(#[trigger] s[i])
}

/// How many elements pass.
pub open spec fn count<T>(s: Seq<T>, p: spec_fn(T) -> bool) -> nat
    decreases s.len(),
{
    if s.len() == 0 {
        0
    } else {
        count(s.drop_last(), p) + if p(s.last()) {
            1nat
        } else {
            0nat
        }
    }
}

/// The elements that pass, in order.
pub open spec fn keep<T>(s: Seq<T>, p: spec_fn(T) -> bool) -> Seq<T>
    decreases s.len(),
{
    if s.len() == 0 {
        Seq::empty()
    } else if p(s.last()) {
        keep(s.drop_last(), p).push(s.last())
    } else {
        keep(s.drop_last(), p)
    }
}

/// Lists laid end to end.
pub open spec fn flat<T>(s: Seq<Seq<T>>) -> Seq<T>
    decreases s.len(),
{
    if s.len() == 0 {
        Seq::empty()
    } else {
        flat(s.drop_last()) + s.last()
    }
}

/// `find` gives the one place that is first.
pub proof fn lemma_find<T>(s: Seq<T>, p: spec_fn(T) -> bool, i: int)
    requires
        0 <= i <= s.len(),
        i < s.len() ==> p(s[i]),
        forall|j: int| 0 <= j < i ==> !p(#[trigger] s[j]),
    ensures
        find(s, p) == i,
    decreases s.len(),
{
    if s.len() > 0 && i > 0 {
        assert(!p(s[0]));
        assert forall|j: int| 0 <= j < i - 1 implies !p(#[trigger] s.skip(1)[j]) by {
            assert(!p(s[j + 1]));
        }
        lemma_find(s.skip(1), p, i - 1);
    }
}

/// What `find` gives passes, and nothing before it does.
pub proof fn lemma_found<T>(s: Seq<T>, p: spec_fn(T) -> bool)
    ensures
        0 <= find(s, p) <= s.len(),
        find(s, p) < s.len() ==> p(s[find(s, p)]),
        forall|j: int| 0 <= j < find(s, p) ==> !p(#[trigger] s[j]),
    decreases s.len(),
{
    if s.len() > 0 && !p(s[0]) {
        lemma_found(s.skip(1), p);
        assert forall|j: int| 0 <= j < find(s, p) implies !p(#[trigger] s[j]) by {
            if j > 0 {
                assert(s[j] == s.skip(1)[j - 1]);
            }
        }
    }
}

/// A count is no more than the length.
pub proof fn lemma_count<T>(s: Seq<T>, p: spec_fn(T) -> bool)
    ensures
        count(s, p) <= s.len(),
    decreases s.len(),
{
    if s.len() > 0 {
        lemma_count(s.drop_last(), p);
    }
}

/// What is kept of a list is of the list, and passes.
pub proof fn lemma_keep<T>(s: Seq<T>, p: spec_fn(T) -> bool)
    ensures
        forall|i: int|
            0 <= i < keep(s, p).len() ==> s.contains(#[trigger] keep(s, p)[i]) && p(keep(s, p)[i]),
    decreases s.len(),
{
    if s.len() > 0 {
        let d = s.drop_last();
        lemma_keep(d, p);
        assert forall|i: int| 0 <= i < keep(s, p).len() implies s.contains(
            #[trigger] keep(s, p)[i],
        ) && p(keep(s, p)[i]) by {
            if i < keep(d, p).len() {
                let x = keep(d, p)[i];
                let k = d.index_of(x);
                assert(s[k] == x);
            } else {
                assert(s[s.len() - 1] == s.last());
            }
        }
    }
}

/// A list kept whole up to one more element.
pub proof fn lemma_take<T>(s: Seq<T>, i: int)
    requires
        0 <= i < s.len(),
    ensures
        s.take(i + 1).drop_last() == s.take(i),
        s.take(i + 1).last() == s[i],
        s.take(i + 1) == s.take(i).push(s[i]),
{
    assert(s.take(i + 1).drop_last() =~= s.take(i));
    assert(s.take(i + 1) =~= s.take(i).push(s[i]));
}

// ---- lists in memory -----------------------------------------------------------

/// Adds an element at the end.
pub fn push_to<T: DeepView>(v: &mut Vec<T>, x: T)
    ensures
        final(v)@ == old(v)@.push(x),
        final(v).deep_view() == old(v).deep_view().push(x.deep_view()),
{
    v.push(x);
    assert(v.deep_view() =~= old(v).deep_view().push(x.deep_view()));
}

/// Puts an element in the place of another.
pub fn put_at<T: DeepView>(v: &mut Vec<T>, i: usize, x: T)
    requires
        i < old(v)@.len(),
    ensures
        final(v)@ == old(v)@.update(i as int, x),
        final(v).deep_view() == old(v).deep_view().update(i as int, x.deep_view()),
{
    v.set(i, x);
    assert(v.deep_view() =~= old(v).deep_view().update(i as int, x.deep_view()));
}

/// Puts an element between others.
pub fn insert_at<T: DeepView>(v: &mut Vec<T>, i: usize, x: T)
    requires
        i <= old(v)@.len(),
    ensures
        final(v)@ == old(v)@.insert(i as int, x),
        final(v).deep_view() == old(v).deep_view().insert(i as int, x.deep_view()),
{
    v.insert(i, x);
    assert(v.deep_view() =~= old(v).deep_view().insert(i as int, x.deep_view()));
}

/// Takes an element out.
pub fn remove_at<T: DeepView>(v: &mut Vec<T>, i: usize) -> (x: T)
    requires
        i < old(v)@.len(),
    ensures
        x == old(v)@[i as int],
        final(v)@ == old(v)@.remove(i as int),
        final(v).deep_view() == old(v).deep_view().remove(i as int),
{
    let x = v.remove(i);
    assert(v.deep_view() =~= old(v).deep_view().remove(i as int));
    x
}

/// The place of the first element that passes, or the length when none does.
pub(crate) fn find_in<T: DeepView, F: Fn(&T) -> bool>(
    v: &Vec<T>,
    f: F,
    Ghost(p): Ghost<spec_fn(T::V) -> bool>,
) -> (i: usize)
    requires
        forall|x: &T| #[trigger] f.requires((x,)),
        forall|x: &T, r: bool| #[trigger] f.ensures((x,), r) ==> r == p(x.deep_view()),
    ensures
        i == find(v.deep_view(), p),
        i <= v@.len(),
        i < v@.len() ==> p(v.deep_view()[i as int]),
{
    let mut i: usize = 0;
    while i < v.len()
        invariant
            i <= v@.len(),
            forall|x: &T| #[trigger] f.requires((x,)),
            forall|x: &T, r: bool| #[trigger] f.ensures((x,), r) ==> r == p(x.deep_view()),
            forall|j: int| 0 <= j < i ==> !p(#[trigger] v.deep_view()[j]),
        decreases v@.len() - i,
    {
        if f(&v[i]) {
            proof {
                lemma_find(v.deep_view(), p, i as int);
            }
            return i;
        }
        assert(!p(v.deep_view()[i as int]));
        i += 1;
    }
    proof {
        lemma_find(v.deep_view(), p, i as int);
    }
    i
}

/// Whether an element passes.
pub(crate) fn any_in<T: DeepView, F: Fn(&T) -> bool>(
    v: &Vec<T>,
    f: F,
    Ghost(p): Ghost<spec_fn(T::V) -> bool>,
) -> (r: bool)
    requires
        forall|x: &T| #[trigger] f.requires((x,)),
        forall|x: &T, r: bool| #[trigger] f.ensures((x,), r) ==> r == p(x.deep_view()),
    ensures
        r == any(v.deep_view(), p),
{
    let i = find_in(v, f, Ghost(p));
    proof {
        lemma_found(v.deep_view(), p);
    }
    i < v.len()
}

/// How many elements pass.
pub(crate) fn count_in<T: DeepView, F: Fn(&T) -> bool>(
    v: &Vec<T>,
    f: F,
    Ghost(p): Ghost<spec_fn(T::V) -> bool>,
) -> (n: usize)
    requires
        forall|x: &T| #[trigger] f.requires((x,)),
        forall|x: &T, r: bool| #[trigger] f.ensures((x,), r) ==> r == p(x.deep_view()),
    ensures
        n == count(v.deep_view(), p),
        n <= v@.len(),
{
    let mut n: usize = 0;
    for i in 0..v.len()
        invariant
            n <= i,
            forall|x: &T| #[trigger] f.requires((x,)),
            forall|x: &T, r: bool| #[trigger] f.ensures((x,), r) ==> r == p(x.deep_view()),
            n == count(v.deep_view().take(i as int), p),
    {
        proof {
            lemma_take(v.deep_view(), i as int);
        }
        if f(&v[i]) {
            n += 1;
        }
    }
    assert(v.deep_view().take(v@.len() as int) =~= v.deep_view());
    n
}

/// The elements that pass, in order.
pub(crate) fn keep_in<'a, T: DeepView, F: Fn(&T) -> bool>(
    v: &Vec<&'a T>,
    f: F,
    Ghost(p): Ghost<spec_fn(T::V) -> bool>,
) -> (r: Vec<&'a T>)
    requires
        forall|x: &T| #[trigger] f.requires((x,)),
        forall|x: &T, r: bool| #[trigger] f.ensures((x,), r) ==> r == p(x.deep_view()),
    ensures
        r.deep_view() == keep(v.deep_view(), p),
{
    let mut r: Vec<&'a T> = Vec::new();
    assert(r.deep_view() =~= Seq::<T::V>::empty());
    for i in 0..v.len()
        invariant
            forall|x: &T| #[trigger] f.requires((x,)),
            forall|x: &T, r: bool| #[trigger] f.ensures((x,), r) ==> r == p(x.deep_view()),
            r.deep_view() == keep(v.deep_view().take(i as int), p),
    {
        proof {
            lemma_take(v.deep_view(), i as int);
        }
        if f(v[i]) {
            push_to(&mut r, v[i]);
        }
    }
    assert(v.deep_view().take(v@.len() as int) =~= v.deep_view());
    r
}

// ---- putting a list in order ---------------------------------------------------

/// Whether an element comes after another.
pub open spec fn beyond<T>(x: T, less: spec_fn(T, T) -> bool) -> spec_fn(T) -> bool {
    |e: T| less(x, e)
}

/// A list with an element put before the first that it is less than.
pub open spec fn slotted<T>(s: Seq<T>, x: T, less: spec_fn(T, T) -> bool) -> Seq<T> {
    s.insert(find(s, beyond(x, less)), x)
}

/// The first elements of a list in order, those that are equal as they came.
pub open spec fn sorted<T>(s: Seq<T>, less: spec_fn(T, T) -> bool, n: nat) -> Seq<T>
    decreases n,
{
    if n == 0 {
        Seq::empty()
    } else {
        slotted(sorted(s, less, (n - 1) as nat), s[n - 1], less)
    }
}

/// Whether no element of a list is less than one before it.
pub open spec fn ascending<T>(s: Seq<T>, less: spec_fn(T, T) -> bool) -> bool {
    forall|i: int, j: int| 0 <= i < j < s.len() ==> !less(#[trigger] s[j], #[trigger] s[i])
}

/// A list put in order is in order, and holds what it held.
pub proof fn lemma_sorted<T>(s: Seq<T>, less: spec_fn(T, T) -> bool, n: nat)
    requires
        n <= s.len(),
        forall|a: T, b: T| #[trigger] less(a, b) ==> !less(b, a),
        forall|a: T, b: T, c: T| #[trigger] less(a, b) && #[trigger] less(b, c) ==> less(a, c),
    ensures
        ascending(sorted(s, less, n), less),
        sorted(s, less, n).to_multiset() == s.take(n as int).to_multiset(),
        sorted(s, less, n).len() == n,
    decreases n,
{
    broadcast use vstd::seq_lib::group_to_multiset_ensures;

    if n == 0 {
        assert(s.take(0) =~= Seq::<T>::empty());
    } else {
        lemma_sorted(s, less, (n - 1) as nat);
        let b = sorted(s, less, (n - 1) as nat);
        let x = s[n - 1];
        let p = beyond(x, less);
        let at = find(b, p);
        lemma_found(b, p);
        let r = b.insert(at, x);
        assert forall|i: int, j: int| 0 <= i < j < r.len() implies !less(
            #[trigger] r[j],
            #[trigger] r[i],
        ) by {
            if j == at {
                assert(!p(b[i]));
            } else if i == at {
                assert(p(b[at]));
                assert(less(x, b[at]));
                if j - 1 > at {
                    assert(!less(b[j - 1], b[at]));
                }
            } else {
                let k = if i < at {
                    i
                } else {
                    i - 1
                };
                let l = if j < at {
                    j
                } else {
                    j - 1
                };
                assert(r[i] == b[k] && r[j] == b[l]);
            }
        }
        lemma_take(s, n - 1);
        b.to_multiset_ensures();
        assert(r.to_multiset() =~= b.to_multiset().insert(x));
        s.take(n - 1).to_multiset_ensures();
    }
}

/// A list put in order, elements that are equal left as they came.
pub(crate) fn sort_by<T: DeepView, F: Fn(&T, &T) -> bool>(
    v: Vec<T>,
    f: F,
    Ghost(less): Ghost<spec_fn(T::V, T::V) -> bool>,
) -> (r: Vec<T>)
    requires
        forall|x: &T, y: &T| #[trigger] f.requires((x, y)),
        forall|x: &T, y: &T, b: bool| #[trigger]
            f.ensures((x, y), b) ==> b == less(x.deep_view(), y.deep_view()),
    ensures
        r.deep_view() == sorted(v.deep_view(), less, v@.len()),
{
    let ghost all = v.deep_view();
    let mut left = v;
    let n: usize = left.len();
    let mut r: Vec<T> = Vec::new();
    assert(r.deep_view() =~= Seq::<T::V>::empty());
    assert(all.skip(0) =~= all);
    for i in 0..n
        invariant
            n == all.len(),
            left@.len() == n - i,
            left.deep_view() == all.skip(i as int),
            r.deep_view() == sorted(all, less, i as nat),
            forall|x: &T, y: &T| #[trigger] f.requires((x, y)),
            forall|x: &T, y: &T, b: bool| #[trigger]
                f.ensures((x, y), b) ==> b == less(x.deep_view(), y.deep_view()),
    {
        let x = remove_at(&mut left, 0);
        assert(x.deep_view() == all.skip(i as int)[0]);
        assert(left.deep_view() =~= all.skip(i + 1));
        let ghost p = beyond(x.deep_view(), less);
        let mut at: usize = 0;
        while at < r.len() && !f(&x, &r[at])
            invariant
                at <= r@.len(),
                p == beyond(x.deep_view(), less),
                forall|x: &T, y: &T| #[trigger] f.requires((x, y)),
                forall|x: &T, y: &T, b: bool| #[trigger]
                    f.ensures((x, y), b) ==> b == less(x.deep_view(), y.deep_view()),
                forall|j: int| 0 <= j < at ==> !p(#[trigger] r.deep_view()[j]),
            ensures
                at <= r@.len(),
                forall|j: int| 0 <= j < at ==> !p(#[trigger] r.deep_view()[j]),
                at < r@.len() ==> p(r.deep_view()[at as int]),
            decreases r@.len() - at,
        {
            assert(!p(r.deep_view()[at as int]));
            at += 1;
        }
        proof {
            lemma_find(r.deep_view(), p, at as int);
        }
        insert_at(&mut r, at, x);
    }
    r
}

// ---- lists in the order of their names -----------------------------------------

/// Whether a name comes before another: by the first character in which they
/// differ, the shorter first when one starts the other.
pub open spec fn before(a: Seq<char>, b: Seq<char>) -> bool
    decreases a.len(),
{
    if b.len() == 0 {
        false
    } else if a.len() == 0 {
        true
    } else if a[0] != b[0] {
        a[0] < b[0]
    } else {
        before(a.skip(1), b.skip(1))
    }
}

/// Whether a list is in the order of its names, no name twice.
pub open spec fn in_order<V>(s: Seq<(Seq<char>, V)>) -> bool {
    forall|i: int, j: int| 0 <= i < j < s.len() ==> before(#[trigger] s[i].0, #[trigger] s[j].0)
}

/// Whether an element has a name.
pub open spec fn called<V>(key: Seq<char>) -> spec_fn((Seq<char>, V)) -> bool {
    |e: (Seq<char>, V)| e.0 == key
}

/// Whether an element does not come before a name.
pub open spec fn not_before<V>(key: Seq<char>) -> spec_fn((Seq<char>, V)) -> bool {
    |e: (Seq<char>, V)| !before(e.0, key)
}

/// What a name stands for.
pub open spec fn lookup<V>(s: Seq<(Seq<char>, V)>, key: Seq<char>) -> Option<V> {
    let i = find(s, called(key));
    if i < s.len() {
        Some(s[i].1)
    } else {
        None
    }
}

/// Whether no name is in a list twice.
pub open spec fn named_once<V>(s: Seq<(Seq<char>, V)>) -> bool {
    forall|i: int, j: int| 0 <= i < j < s.len() ==> #[trigger] s[i].0 != #[trigger] s[j].0
}

/// A list with a name standing for a value: in its place if it is there, else
/// put where the order wants it.
pub open spec fn with<V>(s: Seq<(Seq<char>, V)>, key: Seq<char>, value: V) -> Seq<(Seq<char>, V)> {
    let i = find(s, called(key));
    if i < s.len() {
        s.update(i, (key, value))
    } else {
        s.insert(find(s, not_before(key)), (key, value))
    }
}

/// Nothing comes before itself.
pub proof fn lemma_not_before_itself(a: Seq<char>)
    ensures
        !before(a, a),
    decreases a.len(),
{
    if a.len() > 0 {
        lemma_not_before_itself(a.skip(1));
    }
}

/// Of two names that differ one comes before the other, and not the other
/// before it.
pub proof fn lemma_before(a: Seq<char>, b: Seq<char>)
    ensures
        a != b ==> before(a, b) || before(b, a),
        !(before(a, b) && before(b, a)),
    decreases a.len(),
{
    if a.len() > 0 && b.len() > 0 && a[0] == b[0] {
        lemma_before(a.skip(1), b.skip(1));
        if a.skip(1) == b.skip(1) {
            assert(a =~= seq![a[0]] + a.skip(1));
            assert(b =~= seq![b[0]] + b.skip(1));
        }
    } else if a.len() == 0 && b.len() == 0 {
        assert(a =~= b);
    }
}

/// What comes before something that comes before a third comes before it.
pub proof fn lemma_before_before(a: Seq<char>, b: Seq<char>, c: Seq<char>)
    requires
        before(a, b),
        before(b, c),
    ensures
        before(a, c),
    decreases a.len(),
{
    if a.len() > 0 && a[0] == b[0] && b[0] == c[0] {
        lemma_before_before(a.skip(1), b.skip(1), c.skip(1));
    }
}

/// What a name was made to stand for is what it stands for, and every other
/// name stands for what it stood for.
pub proof fn lemma_with<V>(s: Seq<(Seq<char>, V)>, key: Seq<char>, value: V, other: Seq<char>)
    ensures
        lookup(with(s, key, value), key) == Some(value),
        other != key ==> lookup(with(s, key, value), other) == lookup(s, other),
{
    let t = with(s, key, value);
    let q = called::<V>(key);
    lemma_found(s, q);
    let known = find(s, q) < s.len();
    let at = if known {
        find(s, q)
    } else {
        find(s, not_before::<V>(key))
    };
    lemma_found(s, not_before::<V>(key));
    assert forall|j: int| 0 <= j < at implies !q(#[trigger] t[j]) by {
        assert(!q(s[j]));
    }
    lemma_find(t, q, at);
    if other != key {
        let r = called::<V>(other);
        lemma_found(s, r);
        let i = find(s, r);
        if known {
            assert forall|j: int| 0 <= j < i implies !r(#[trigger] t[j]) by {
                assert(!r(s[j]));
            }
            lemma_find(t, r, i);
        } else if i < at {
            assert forall|j: int| 0 <= j < i implies !r(#[trigger] t[j]) by {
                assert(!r(s[j]));
            }
            lemma_find(t, r, i);
        } else {
            assert forall|j: int| 0 <= j < i + 1 implies !r(#[trigger] t[j]) by {
                if j < at {
                    assert(!r(s[j]));
                } else if j > at {
                    assert(!r(s[j - 1]));
                }
            }
            lemma_find(t, r, i + 1);
        }
    }
}

/// A list in which no name is twice stays so when a name is made to stand for a
/// value, and so does one in the order of its names.
pub proof fn law_a_name_is_put_in_once<V>(s: Seq<(Seq<char>, V)>, key: Seq<char>, value: V)
    ensures
        named_once(s) ==> named_once(with(s, key, value)),
        in_order(s) ==> in_order(with(s, key, value)) && named_once(s),
{
    let t = with(s, key, value);
    let q = called::<V>(key);
    lemma_found(s, q);
    lemma_found(s, not_before::<V>(key));
    let at = find(s, not_before::<V>(key));
    if named_once(s) {
        assert forall|i: int, j: int| 0 <= i < j < t.len() implies #[trigger] t[i].0 != #[trigger] t[
            j
        ].0 by {
            if find(s, q) < s.len() {
                assert(s[i].0 != s[j].0);
            } else {
                let a = if i > at {
                    i - 1
                } else {
                    i
                };
                let b = if j > at {
                    j - 1
                } else {
                    j
                };
                if i != at && j != at {
                    assert(s[a].0 != s[b].0);
                } else if i == at {
                    assert(!q(s[b]));
                } else {
                    assert(!q(s[a]));
                }
            }
        }
    }
    if in_order(s) {
        lemma_with_in_order(s, key, value);
        assert forall|i: int, j: int| 0 <= i < j < s.len() implies #[trigger] s[i].0 != #[trigger] s[
            j
        ].0 by {
            assert(before(s[i].0, s[j].0));
            lemma_not_before_itself(s[i].0);
        }
    }
}

/// A list in the order of its names stays so, and grows only by a name that was
/// not in it.
pub proof fn lemma_with_in_order<V>(s: Seq<(Seq<char>, V)>, key: Seq<char>, value: V)
    requires
        in_order(s),
    ensures
        in_order(with(s, key, value)),
        lookup(s, key) is Some ==> find(s, called(key)) == find(s, not_before(key)),
        lookup(s, key) is None ==> with(s, key, value) == s.insert(
            find(s, not_before(key)),
            (key, value),
        ),
{
    let p = not_before::<V>(key);
    let q = called::<V>(key);
    let at = find(s, p);
    lemma_found(s, p);
    lemma_found(s, q);
    lemma_not_before_itself(key);
    let i = find(s, q);
    if i < s.len() {
        assert(s[i].0 == key);
        assert(p(s[i]));
        if at < i {
            assert(before(s[at].0, s[i].0));
        }
    }
    let t = with(s, key, value);
    assert forall|a: int, b: int| 0 <= a < b < t.len() implies before(
        #[trigger] t[a].0,
        #[trigger] t[b].0,
    ) by {
        if i < s.len() {
            assert(before(s[a].0, s[b].0));
        } else if b < at {
            assert(before(s[a].0, s[b].0));
        } else if b == at {
            assert(!p(s[a]));
        } else if a < at {
            assert(before(s[a].0, s[b - 1].0));
        } else if a == at {
            assert(p(s[at]));
            assert(!q(s[at]));
            lemma_before(s[at].0, key);
            if b - 1 > at {
                assert(before(s[at].0, s[b - 1].0));
                lemma_before_before(key, s[at].0, s[b - 1].0);
            }
        } else {
            assert(before(s[a - 1].0, s[b - 1].0));
        }
    }
}

/// A name stands for nothing when it is not in the list.
pub proof fn lemma_absent<V>(s: Seq<(Seq<char>, V)>, key: Seq<char>)
    ensures
        (lookup(s, key) is None) == (forall|i: int|
            0 <= i < s.len() ==> (#[trigger] s[i]).0 != key),
{
    let q = called::<V>(key);
    lemma_found(s, q);
    if lookup(s, key) is None {
        assert forall|i: int| 0 <= i < s.len() implies (#[trigger] s[i]).0 != key by {
            assert(!q(s[i]));
        }
    } else {
        assert(s[find(s, q)].0 == key);
    }
}

/// Whether a name comes before another.
pub fn comes_before(a: &str, b: &str) -> (r: bool)
    ensures
        r == before(a@, b@),
{
    let x = crate::text::chars_of(a);
    let y = crate::text::chars_of(b);
    let mut i: usize = 0;
    assert(x@.skip(0) =~= a@);
    assert(y@.skip(0) =~= b@);
    while i < x.len() && i < y.len()
        invariant
            i <= x@.len(),
            i <= y@.len(),
            before(a@, b@) == before(x@.skip(i as int), y@.skip(i as int)),
        decreases x@.len() - i,
    {
        if x[i] != y[i] {
            return x[i] < y[i];
        }
        assert(x@.skip(i as int).skip(1) =~= x@.skip(i + 1));
        assert(y@.skip(i as int).skip(1) =~= y@.skip(i + 1));
        i += 1;
    }
    i < y.len()
}

/// What a name stands for.
pub fn get<'a, V: DeepView>(s: &'a Vec<(String, V)>, key: &str) -> (r: Option<&'a V>)
    ensures
        match r {
            Some(v) => lookup(s.deep_view(), key@) == Some(v.deep_view()),
            None => lookup(s.deep_view(), key@) is None,
        },
{
    let ghost p = called::<V::V>(key@);
    let f = |e: &(String, V)| -> (r: bool)
        ensures
            r == p(e.deep_view()),
        { crate::text::same(e.0.as_str(), key) };
    let i = find_in(s, f, Ghost(p));
    if i < s.len() {
        Some(&s[i].1)
    } else {
        None
    }
}

/// Makes a name stand for a value: in its place if it is there, else put where
/// the order wants it.
pub fn put<V: DeepView>(s: &mut Vec<(String, V)>, key: String, value: V)
    ensures
        final(s).deep_view() == with(old(s).deep_view(), key@, value.deep_view()),
{
    let ghost q = called::<V::V>(key@);
    let g = |e: &(String, V)| -> (r: bool)
        ensures
            r == q(e.deep_view()),
        { crate::text::same(e.0.as_str(), key.as_str()) };
    let at = find_in(s, g, Ghost(q));
    if at < s.len() {
        put_at(s, at, (key, value));
        return;
    }
    let ghost p = not_before::<V::V>(key@);
    let f = |e: &(String, V)| -> (r: bool)
        ensures
            r == p(e.deep_view()),
        { !comes_before(e.0.as_str(), key.as_str()) };
    let i = find_in(s, f, Ghost(p));
    insert_at(s, i, (key, value));
}

} // verus!
