//! A restore that is refused leaves every index as it found it.

use vstd::prelude::*;

use super::restore::{taking_place, undoing, undone, ActionV, MadeV, ReplacesV};
use super::restoring::{beginning, EventV, PhaseV, RestoringV, StepV, TodoV};
use crate::json::JsonV;

verus! {

// ---- the indices there are -----------------------------------------------------

/// The indices a node holds, by name, with what is in them, and those set aside,
/// the last one last.
#[verifier::ext_equal]
pub struct World {
    pub there: Map<Seq<char>, int>,
    pub aside: Seq<(Seq<char>, int)>,
}

/// The place of what was last set aside under a name, below nothing where
/// nothing was.
pub open spec fn last_aside(aside: Seq<(Seq<char>, int)>, t: Seq<char>) -> int
    decreases aside.len(),
{
    if aside.len() == 0 {
        -1
    } else if aside.last().0 == t {
        aside.len() - 1
    } else {
        last_aside(aside.drop_last(), t)
    }
}

/// The indices there are once one has been set aside.
pub open spec fn set_aside(w: World, t: Seq<char>) -> World {
    World { there: w.there.remove(t), aside: w.aside.push((t, w.there[t])) }
}

/// The indices there are once documents have been put into one, whatever they
/// are.
pub open spec fn filled(w: World, t: Seq<char>, documents: int) -> World {
    World { there: w.there.insert(t, documents), ..w }
}

/// The indices there are once something has been done with one.
pub open spec fn acted(w: World, a: ActionV) -> World {
    match a {
        ActionV::Delete(t) => World { there: w.there.remove(t), ..w },
        ActionV::PutBack(t) => {
            let k = last_aside(w.aside, t);
            if k >= 0 {
                World { there: w.there.insert(t, w.aside[k].1), aside: w.aside.remove(k) }
            } else {
                w
            }
        },
        ActionV::LetGo(t) => {
            let k = last_aside(w.aside, t);
            if k >= 0 {
                World { aside: w.aside.remove(k), ..w }
            } else {
                w
            }
        },
        ActionV::EndRestore(t) | ActionV::Open(t) => w,
    }
}

pub open spec fn all_acted(w: World, actions: Seq<ActionV>) -> World
    decreases actions.len(),
{
    if actions.len() == 0 {
        w
    } else {
        all_acted(acted(w, actions[0]), actions.skip(1))
    }
}

/// The indices there are once something that was asked for has been done.
pub open spec fn obeyed(w: World, t: TodoV) -> World {
    match t {
        TodoV::Do(actions) => all_acted(w, actions),
        _ => w,
    }
}

pub open spec fn all_obeyed(w: World, todo: Seq<TodoV>) -> World
    decreases todo.len(),
{
    if todo.len() == 0 {
        w
    } else {
        obeyed(all_obeyed(w, todo.drop_last()), todo.last())
    }
}

// ---- a restore among them ------------------------------------------------------

/// A restore on its way, the indices there are, and all it has asked for.
#[verifier::ext_equal]
pub struct Lived {
    pub w: World,
    pub st: RestoringV,
    pub asked: Seq<TodoV>,
    /// what was put into each index that was made
    pub documents: Seq<int>,
}

/// What a restore is told, and what was put into an index where it was asked
/// for that.
pub struct Told {
    pub e: EventV,
    pub documents: int,
}

/// Whether an index has just been filled, whole or not.
pub open spec fn has_filled(st: RestoringV, e: EventV) -> bool {
    st.phase is Applying && (e is Ready || e is Failed)
}

/// The indices there are when a restore is told something: it was asked for one
/// to be set aside or filled, and that has been done.
pub open spec fn come_about(w: World, st: RestoringV, t: Told) -> World {
    let target = st.steps[st.at as int].target;
    if st.phase is SettingAside && t.e == EventV::SetAside(true) {
        set_aside(w, target)
    } else if has_filled(st, t.e) {
        filled(w, target, t.documents)
    } else {
        w
    }
}

/// A restore that has been told some things, one after the other.
pub open spec fn lived(w: World, begun: (RestoringV, Seq<TodoV>), told: Seq<Told>) -> Lived
    decreases told.len(),
{
    if told.len() == 0 {
        Lived { w: all_obeyed(w, begun.1), st: begun.0, asked: begun.1, documents: Seq::empty() }
    } else {
        let l = lived(w, begun, told.drop_last());
        let t = told.last();
        let (next, todo) = l.st.told(t.e);
        Lived {
            w: all_obeyed(come_about(l.w, l.st, t), todo),
            st: next,
            asked: l.asked + todo,
            documents: if has_filled(l.st, t.e) {
                l.documents.push(t.documents)
            } else {
                l.documents
            },
        }
    }
}

/// Whether what a restore is told is so: that this node holds an index under a
/// name or not, and that one was set aside.
pub open spec fn is_so(w: World, st: RestoringV, e: EventV) -> bool {
    match (st.phase, e) {
        (PhaseV::Looking, EventV::Known(s)) => s.here is Some <==> w.there.contains_key(
            st.target(),
        ),
        (PhaseV::SettingAside, EventV::SetAside(done)) => done ==> w.there.contains_key(
            st.steps[st.at as int].target,
        ),
        _ => true,
    }
}

/// Whether all a restore is told is so.
pub open spec fn all_so(w: World, begun: (RestoringV, Seq<TodoV>), told: Seq<Told>) -> bool
    decreases told.len(),
{
    told.len() == 0 || {
        let l = lived(w, begun, told.drop_last());
        all_so(w, begun, told.drop_last()) && is_so(l.w, l.st, told.last().e)
    }
}

// ---- taking back ---------------------------------------------------------------

/// The indices there are once the first of a restore's have been made.
spec fn made_by(w: World, made: Seq<MadeV>, documents: Seq<int>, n: nat) -> World
    decreases n,
{
    if n == 0 {
        w
    } else {
        let before = made_by(w, made, documents, (n - 1) as nat);
        let m = made[n - 1];
        filled(
            if m.aside {
                set_aside(before, m.target)
            } else {
                before
            },
            m.target,
            documents[n - 1],
        )
    }
}

/// Whether the first of a restore's indices were made where they might be: in
/// the place of one that was there, or where none was to begin with.
spec fn rightly_made(w: World, made: Seq<MadeV>, documents: Seq<int>, n: nat) -> bool
    decreases n,
{
    n == 0 || {
        let before = made_by(w, made, documents, (n - 1) as nat);
        let m = made[n - 1];
        &&& rightly_made(w, made, documents, (n - 1) as nat)
        &&& m.aside ==> before.there.contains_key(m.target)
        &&& !m.aside ==> !w.there.contains_key(m.target)
    }
}

/// Whether one of the first indices was made where none was.
spec fn made_anew(made: Seq<MadeV>, n: nat, t: Seq<char>) -> bool {
    exists|i: int| 0 <= i < n && !(#[trigger] made[i]).aside && made[i].target == t
}

/// An index that is there was there to begin with, or was made where none was.
proof fn lemma_there(w: World, made: Seq<MadeV>, documents: Seq<int>, n: nat, t: Seq<char>)
    requires
        n <= made.len(),
        rightly_made(w, made, documents, n),
        made_by(w, made, documents, n).there.contains_key(t),
    ensures
        w.there.contains_key(t) || made_anew(made, n, t),
    decreases n,
{
    if n > 0 {
        let before = made_by(w, made, documents, (n - 1) as nat);
        let m = made[n - 1];
        if t == m.target && !m.aside {
            assert(!made[n - 1].aside && made[n - 1].target == t);
        } else {
            assert(before.there.contains_key(t));
            lemma_there(w, made, documents, (n - 1) as nat, t);
            if made_anew(made, (n - 1) as nat, t) {
                let i = choose|i: int|
                    0 <= i < n - 1 && !(#[trigger] made[i]).aside && made[i].target == t;
                assert(!made[i].aside && made[i].target == t);
            }
        }
    }
}

/// Whether the indices there are are those there were once some of a restore's
/// had been made, but for those of them that were made where none was and may
/// be gone already.
spec fn nearly(u: World, a: World, made: Seq<MadeV>, n: nat) -> bool {
    &&& u.aside == a.aside
    &&& forall|t: Seq<char>|
        (#[trigger] u.there.contains_key(t)) ==> a.there.contains_key(t) && u.there[t]
            == a.there[t]
    &&& forall|t: Seq<char>|
        (#[trigger] a.there.contains_key(t)) ==> u.there.contains_key(t) || made_anew(made, n, t)
}

proof fn lemma_acted(w: World, a: Seq<ActionV>, b: Seq<ActionV>)
    ensures
        all_acted(w, a + b) == all_acted(all_acted(w, a), b),
    decreases a.len(),
{
    if a.len() == 0 {
        assert(a + b =~= b);
    } else {
        lemma_acted(acted(w, a[0]), a.skip(1), b);
        assert((a + b).skip(1) =~= a.skip(1) + b);
        assert((a + b)[0] == a[0]);
    }
}

/// What undoing one index comes to.
proof fn lemma_undoing(u: World, m: MadeV)
    ensures
        all_acted(u, undoing(m)) == ({
            let gone = acted(u, ActionV::Delete(m.target));
            if m.aside {
                acted(gone, ActionV::PutBack(m.target))
            } else {
                gone
            }
        }),
{
    let s = undoing(m);
    let one = acted(u, s[0]);
    let two = acted(one, s[1]);
    assert(s.skip(1)[0] == s[1]);
    assert(s.skip(1).skip(1) =~= s.skip(2));
    assert(all_acted(u, s) == all_acted(one, s.skip(1)));
    assert(all_acted(one, s.skip(1)) == all_acted(two, s.skip(2)));
    if m.aside {
        let three = acted(two, s[2]);
        assert(s.skip(2)[0] == s[2]);
        assert(s.skip(2).skip(1).len() == 0);
        assert(all_acted(two, s.skip(2)) == all_acted(three, s.skip(2).skip(1)));
    } else {
        assert(s.skip(2).len() == 0);
    }
}

proof fn lemma_undone(w: World, u: World, made: Seq<MadeV>, documents: Seq<int>, n: nat)
    requires
        n <= made.len(),
        n <= documents.len(),
        rightly_made(w, made, documents, n),
        nearly(u, made_by(w, made, documents, n), made, n),
    ensures
        all_acted(u, undone(made, n)) == w,
    decreases n,
{
    let now = made_by(w, made, documents, n);
    if n == 0 {
        assert(u.there =~= w.there);
    } else {
        let m = made[n - 1];
        let t = m.target;
        let before = made_by(w, made, documents, (n - 1) as nat);
        lemma_acted(u, undoing(m), undone(made, (n - 1) as nat));
        lemma_undoing(u, m);
        let v = all_acted(u, undoing(m));
        if m.aside {
            assert(now.aside == before.aside.push((t, before.there[t])));
            assert(u.aside.last() == (t, before.there[t]));
            assert(last_aside(u.aside, t) == u.aside.len() - 1);
            assert(v.aside =~= before.aside);
            assert(v.there[t] == before.there[t]);
        }
        assert forall|x: Seq<char>| (#[trigger] v.there.contains_key(x)) implies
            before.there.contains_key(x) && v.there[x] == before.there[x] by {
            if x != t {
                assert(u.there.contains_key(x));
            }
        }
        assert forall|x: Seq<char>| (#[trigger] before.there.contains_key(x)) implies
            v.there.contains_key(x) || made_anew(made, (n - 1) as nat, x) by {
            if x != t {
                assert(now.there.contains_key(x));
                if made_anew(made, n, x) {
                    let i = choose|i: int|
                        0 <= i < n && !(#[trigger] made[i]).aside && made[i].target == x;
                    assert(i < n - 1);
                    assert(!made[i].aside && made[i].target == x);
                }
            } else if !m.aside {
                lemma_there(w, made, documents, (n - 1) as nat, x);
            }
        }
        lemma_undone(w, v, made, documents, (n - 1) as nat);
    }
}

// ---- what holds of a restore that is on its way --------------------------------

spec fn is_refused(asked: Seq<TodoV>) -> bool {
    exists|i: int| 0 <= i < asked.len() && (#[trigger] asked[i]) is Refuse
}

/// Whether a step found the place it takes free on this node.
spec fn is_free(w: World, s: StepV) -> bool {
    s.replaces is ClosedHere || !w.there.contains_key(s.target)
}

/// Whether the indices there are are those a restore has made so far, with the
/// one at hand set aside where it is about to be filled.
spec fn is_made(w: World, l: Lived) -> bool {
    let n = l.st.made.len();
    let a = made_by(w, l.st.made, l.documents, n);
    let target = l.st.steps[l.st.at as int].target;
    &&& l.documents.len() == n
    &&& rightly_made(w, l.st.made, l.documents, n)
    &&& match l.st.phase {
        PhaseV::Applying(true) => a.there.contains_key(target) && l.w == set_aside(a, target),
        PhaseV::Applying(false) => !w.there.contains_key(target) && l.w == a,
        _ => l.w == a,
    }
}

/// What holds of a restore whatever it has been told.
spec fn holds(w: World, l: Lived) -> bool {
    &&& l.st.valid()
    &&& forall|k: int| 0 <= k < l.st.steps.len() ==> is_free(w, #[trigger] l.st.steps[k])
    &&& (l.st.phase is Looking || l.st.phase is Checking || l.st.phase is Global) ==> l.w == w
        && l.st.made.len() == 0 && l.documents.len() == 0
    &&& l.st.phase matches PhaseV::Checking(r) ==> r is ClosedHere || !w.there.contains_key(
        l.st.target(),
    )
    &&& l.st.phase is SettingAside ==> l.st.steps[l.st.at as int].replaces is ClosedHere
    &&& l.st.phase is Burying ==> !(l.st.steps[l.st.at as int].replaces is ClosedHere)
    &&& !(l.st.phase is Over) ==> !is_refused(l.asked) && is_made(w, l)
    &&& is_refused(l.asked) ==> l.w == w
}

proof fn lemma_asked(asked: Seq<TodoV>, todo: Seq<TodoV>)
    ensures
        is_refused(asked + todo) <==> is_refused(asked) || is_refused(todo),
{
    let all = asked + todo;
    if is_refused(asked) {
        let i = choose|i: int| 0 <= i < asked.len() && (#[trigger] asked[i]) is Refuse;
        assert(all[i] is Refuse);
    }
    if is_refused(todo) {
        let i = choose|i: int| 0 <= i < todo.len() && (#[trigger] todo[i]) is Refuse;
        assert(all[asked.len() + i] is Refuse);
    }
    if is_refused(all) {
        let i = choose|i: int| 0 <= i < all.len() && (#[trigger] all[i]) is Refuse;
        if i < asked.len() {
            assert(asked[i] is Refuse);
        } else {
            assert(todo[i - asked.len()] is Refuse);
        }
    }
}

proof fn lemma_obeyed(w: World, todo: Seq<TodoV>)
    ensures
        todo.len() == 0 ==> all_obeyed(w, todo) == w,
        todo.len() == 1 ==> all_obeyed(w, todo) == obeyed(w, todo[0]),
        todo.len() == 2 ==> all_obeyed(w, todo) == obeyed(obeyed(w, todo[0]), todo[1]),
{
    reveal_with_fuel(all_obeyed, 3);
    if todo.len() == 2 {
        assert(todo.drop_last().last() == todo[0]);
        assert(todo.drop_last().drop_last().len() == 0);
    }
    if todo.len() == 1 {
        assert(todo.drop_last().len() == 0);
    }
}

/// What holds once the next step is begun, or all of them were made.
proof fn lemma_making(w: World, st: RestoringV, now: World, asked: Seq<TodoV>, documents: Seq<int>)
    requires
        st.at <= st.steps.len(),
        forall|k: int| 0 <= k < st.steps.len() ==> is_free(w, #[trigger] st.steps[k]),
        !is_refused(asked),
        documents.len() == st.made.len(),
        rightly_made(w, st.made, documents, st.made.len()),
        now == made_by(w, st.made, documents, st.made.len()),
    ensures
        holds(
            w,
            Lived {
                w: all_obeyed(now, st.making().1),
                st: st.making().0,
                asked: asked + st.making().1,
                documents,
            },
        ),
{
    let (next, todo) = st.making();
    lemma_asked(asked, todo);
    assert(!is_refused(todo));
    lemma_obeyed(now, todo);
}

proof fn lemma_looking(w: World, st: RestoringV, asked: Seq<TodoV>)
    requires
        st.at <= st.chosen.len(),
        forall|k: int| 0 <= k < st.steps.len() ==> is_free(w, #[trigger] st.steps[k]),
        !is_refused(asked),
        st.made.len() == 0,
    ensures
        holds(
            w,
            Lived {
                w: all_obeyed(w, st.looking().1),
                st: st.looking().0,
                asked: asked + st.looking().1,
                documents: Seq::empty(),
            },
        ),
{
    let (next, todo) = st.looking();
    lemma_asked(asked, todo);
    if st.at < st.chosen.len() || (st.global && st.from) {
        assert(!is_refused(todo));
        lemma_obeyed(w, todo);
    } else {
        lemma_making(w, RestoringV { at: 0, ..st }, w, asked, Seq::empty());
    }
}

proof fn lemma_decided(w: World, l: Lived, r: ReplacesV)
    requires
        holds(w, l),
        l.st.phase is Looking || l.st.phase is Checking,
        r is ClosedHere || !w.there.contains_key(l.st.target()),
    ensures
        holds(
            w,
            Lived {
                w: all_obeyed(w, l.st.decided(r).1),
                st: l.st.decided(r).0,
                asked: l.asked + l.st.decided(r).1,
                documents: Seq::empty(),
            },
        ),
{
    let st = l.st;
    let step = StepV { index: st.chosen[st.at as int], target: st.target(), replaces: r };
    let now = RestoringV { steps: st.steps.push(step), at: st.at + 1, ..st };
    assert forall|k: int| 0 <= k < now.steps.len() implies is_free(w, #[trigger] now.steps[k]) by {
        if k < st.steps.len() {
            assert(is_free(w, st.steps[k]));
        }
    }
    lemma_looking(w, now, l.asked);
}

/// What holds once a restore is stopped while its indices are made.
proof fn lemma_failing(
    w: World,
    st: RestoringV,
    now: World,
    asked: Seq<TodoV>,
    documents: Seq<int>,
    why: crate::api::answer::AnswerV,
)
    requires
        !is_refused(asked),
        forall|k: int| 0 <= k < st.steps.len() ==> is_free(w, #[trigger] st.steps[k]),
        documents.len() == st.made.len(),
        rightly_made(w, st.made, documents, st.made.len()),
        now == made_by(w, st.made, documents, st.made.len()),
    ensures
        holds(
            w,
            Lived {
                w: all_obeyed(now, st.failing(why).1),
                st: st.failing(why).0,
                asked: asked + st.failing(why).1,
                documents,
            },
        ),
{
    let (next, todo) = st.failing(why);
    lemma_obeyed(now, todo);
    lemma_undone(w, now, st.made, documents, st.made.len());
}

proof fn lemma_made_before(
    w: World,
    a: Seq<MadeV>,
    b: Seq<MadeV>,
    x: Seq<int>,
    y: Seq<int>,
    n: nat,
)
    requires
        n <= a.len(),
        n <= b.len(),
        n <= x.len(),
        n <= y.len(),
        forall|i: int| 0 <= i < n ==> #[trigger] a[i] == b[i],
        forall|i: int| 0 <= i < n ==> #[trigger] x[i] == y[i],
    ensures
        made_by(w, a, x, n) == made_by(w, b, y, n),
        rightly_made(w, a, x, n) == rightly_made(w, b, y, n),
    decreases n,
{
    if n > 0 {
        lemma_made_before(w, a, b, x, y, (n - 1) as nat);
    }
}

/// What there is once the index at hand has been filled.
proof fn lemma_filled(w: World, l: Lived, aside: bool, documents: int)
    requires
        holds(w, l),
        l.st.phase == PhaseV::Applying(aside),
    ensures
        ({
            let st = l.st.with_made(aside);
            let now = l.documents.push(documents);
            let target = l.st.steps[l.st.at as int].target;
            &&& now.len() == st.made.len()
            &&& rightly_made(w, st.made, now, st.made.len())
            &&& filled(l.w, target, documents) == made_by(w, st.made, now, st.made.len())
        }),
{
    let st = l.st.with_made(aside);
    let now = l.documents.push(documents);
    let n = l.st.made.len();
    lemma_made_before(w, l.st.made, st.made, l.documents, now, n);
    let a = made_by(w, l.st.made, l.documents, n);
    let target = l.st.steps[l.st.at as int].target;
    assert(st.made[n as int] == (MadeV { target, aside }));
    assert(now[n as int] == documents);
}

proof fn lemma_told(w: World, l: Lived, t: Told)
    requires
        holds(w, l),
        is_so(l.w, l.st, t.e),
    ensures
        ({
            let (next, todo) = l.st.told(t.e);
            holds(
                w,
                Lived {
                    w: all_obeyed(come_about(l.w, l.st, t), todo),
                    st: next,
                    asked: l.asked + todo,
                    documents: if has_filled(l.st, t.e) {
                        l.documents.push(t.documents)
                    } else {
                        l.documents
                    },
                },
            )
        }),
{
    let st = l.st;
    let (next, todo) = st.told(t.e);
    lemma_asked(l.asked, todo);
    lemma_obeyed(come_about(l.w, st, t), todo);
    assert(l.documents.len() == 0 ==> l.documents =~= Seq::<int>::empty());
    match (st.phase, t.e) {
        (PhaseV::Looking, EventV::Known(s)) => {
            match taking_place(st.repo, st.name, st.uuid, st.target(), s) {
                Err(why) => {},
                Ok(r) => {
                    assert(r is ClosedHere || !w.there.contains_key(st.target()));
                    if st.from {
                        assert(!is_refused(todo));
                    } else if r is Nothing {
                        lemma_looking(w, RestoringV { at: st.at + 1, ..st }, l.asked);
                    } else {
                        lemma_decided(w, l, r);
                    }
                },
            }
        },
        (PhaseV::Checking(r), EventV::Ready) => {
            lemma_decided(w, l, r);
        },
        (PhaseV::Checking(_), EventV::Failed(_)) => {},
        (PhaseV::Global, EventV::Ready) => {
            lemma_making(w, RestoringV { at: 0, ..st }, w, l.asked, l.documents);
        },
        (PhaseV::Global, EventV::Failed(_)) => {},
        (PhaseV::Reading, EventV::Ready) => {
            assert(is_free(w, st.steps[st.at as int]));
            assert(!is_refused(todo));
        },
        (PhaseV::Reading, EventV::Failed(why)) => {
            lemma_failing(
                w,
                st,
                l.w,
                l.asked,
                l.documents,
                super::restoring::unreadable(why),
            );
        },
        (PhaseV::SettingAside, EventV::SetAside(done)) => {
            if done {
                assert(!is_refused(todo));
            } else {
                lemma_failing(
                    w,
                    st,
                    l.w,
                    l.asked,
                    l.documents,
                    super::restore::open_exists(
                        st.repo,
                        st.name,
                        st.uuid,
                        st.steps[st.at as int].target,
                    ),
                );
            }
        },
        (PhaseV::Burying, EventV::Gone) => {
            assert(is_free(w, st.steps[st.at as int]));
            assert(!is_refused(todo));
        },
        (PhaseV::Applying(aside), EventV::Ready) => {
            lemma_filled(w, l, aside, t.documents);
            lemma_making(
                w,
                st.with_made(aside).brought_back(),
                come_about(l.w, st, t),
                l.asked,
                l.documents.push(t.documents),
            );
        },
        (PhaseV::Applying(aside), EventV::Failed(why)) => {
            lemma_filled(w, l, aside, t.documents);
            lemma_failing(
                w,
                st.with_made(aside),
                come_about(l.w, st, t),
                l.asked,
                l.documents.push(t.documents),
                super::restoring::unreadable(why),
            );
        },
        (PhaseV::Reopening, EventV::Ready) => {
            lemma_making(w, st.brought_back(), l.w, l.asked, l.documents);
        },
        _ => {
            assert(todo.len() == 0);
            assert(l.asked + todo =~= l.asked);
        },
    }
}

proof fn lemma_lived(w: World, begun: (RestoringV, Seq<TodoV>), told: Seq<Told>)
    requires
        all_so(w, begun, told),
        holds(w, lived(w, begun, Seq::empty())),
    ensures
        holds(w, lived(w, begun, told)),
    decreases told.len(),
{
    if told.len() == 0 {
        assert(told =~= Seq::<Told>::empty());
    } else {
        lemma_lived(w, begun, told.drop_last());
        lemma_told(w, lived(w, begun, told.drop_last()), told.last());
    }
}

/// A restore that is refused leaves every index this node holds as it found it,
/// whenever it is refused and whatever it had made by then: nothing is there that
/// was not, and everything that was is there with what was in it. It is told
/// nothing of them that is not so. An index that only other nodes held is no part
/// of this: one that was deleted there is not put back.
pub proof fn law_a_refused_restore_leaves_every_index_as_it_was(
    w: World,
    repo: Seq<char>,
    name: Seq<char>,
    source: JsonV,
    body: JsonV,
    from: bool,
    indices: Seq<Seq<char>>,
    told: Seq<Told>,
    i: int,
)
    requires
        all_so(w, beginning(repo, name, source, body, from, indices), told),
        ({
            let l = lived(w, beginning(repo, name, source, body, from, indices), told);
            0 <= i < l.asked.len() && l.asked[i] is Refuse
        }),
    ensures
        lived(w, beginning(repo, name, source, body, from, indices), told).w == w,
{
    let begun = beginning(repo, name, source, body, from, indices);
    let l = lived(w, begun, told);
    let st = RestoringV {
        repo,
        name,
        uuid: super::restore::uuid_of(source),
        body,
        from,
        global: crate::api::answer::told(body, "include_global_state"@) == Some(true)
            && crate::api::answer::told(source, "include_global_state"@) == Some(true),
        streams: crate::api::answer::texts_at(source, "data_streams"@),
        chosen: indices,
        steps: Seq::empty(),
        made: Seq::empty(),
        restored: Seq::empty(),
        at: 0,
        phase: PhaseV::Over,
    };
    assert(!is_refused(Seq::<TodoV>::empty()));
    lemma_looking(w, st, Seq::empty());
    assert(Seq::<TodoV>::empty() + begun.1 =~= begun.1);
    lemma_lived(w, begun, told);
    assert(is_refused(l.asked));
}

} // verus!
