//! How a restore goes on, step by step.

use vstd::prelude::*;

use crate::api::snapshot::restore::{taking_place, ReplacesV, StandingV};
use crate::api::snapshot::restoring::{EventV, PhaseV, RestoringV, TodoV};
use crate::laws::answers::{law_a_refusal_tells_why, tells};

verus! {

/// A target that may not be taken ends the restore with why, before anything is touched; one
/// that may has what the snapshot keeps of it read first.
pub proof fn law_a_target_is_looked_at_before_it_is_read(st: RestoringV, s: StandingV)
    requires
        st.phase is Looking,
        st.from,
    ensures
        ({
            let (next, todo) = st.told(EventV::Known(s));
            match taking_place(st.repo, st.name, st.uuid, st.target(), s) {
                Err(why) => next.phase is Over && todo == seq![TodoV::Refuse(why)] && next.made
                    == st.made && next.steps == st.steps,
                Ok(r) => next.phase == PhaseV::Checking(r) && todo == seq![
                    TodoV::Prepare(st.chosen[st.at as int]),
                ] && next.made == st.made && next.steps == st.steps,
            }
        }),
{
}

/// What the snapshot keeps of an index and cannot be read ends the restore before anything is
/// touched.
pub proof fn law_what_cannot_be_read_is_refused_before_anything_is_touched(
    st: RestoringV,
    r: ReplacesV,
    why: Seq<char>,
)
    requires
        st.phase == PhaseV::Checking(r),
    ensures
        ({
            let (next, todo) = st.told(EventV::Failed(why));
            next.phase is Over && todo.len() == 1 && (todo[0] matches TodoV::Refuse(a) && tells(
                a,
                500,
                "repository_exception"@,
                why,
            ))
        }),
{
    law_a_refusal_tells_why(500, "repository_exception"@, why, Seq::empty());
}

/// An index that replaces nothing is applied at once; one that replaces a closed index here
/// has that set aside first; and one that replaces a closed index elsewhere has that buried
/// first.
pub proof fn law_what_is_replaced_is_out_of_the_way_first(st: RestoringV, uuid: Seq<char>)
    requires
        st.phase is Reading,
        0 <= st.at < st.steps.len(),
    ensures
        ({
            let step = st.steps[st.at as int];
            let (next, todo) = st.told(EventV::Ready);
            &&& step.replaces is Nothing ==> next.phase == PhaseV::Applying(false) && todo == seq![
                TodoV::Apply(step.index, step.target),
            ]
            &&& step.replaces is ClosedHere ==> next.phase is SettingAside && todo == seq![
                TodoV::SetAside(step.target),
            ]
            &&& step.replaces == ReplacesV::ClosedElsewhere(uuid) ==> next.phase is Burying && todo
                == seq![TodoV::Bury(step.target, uuid)]
        }),
{
}

/// Once what it replaces is out of the way an index is applied, and the restore knows whether
/// there is something to put back; where it could not be set aside, the restore is taken back.
pub proof fn law_an_index_is_applied_once_the_way_is_free(st: RestoringV)
    requires
        0 <= st.at < st.steps.len(),
    ensures
        ({
            let step = st.steps[st.at as int];
            let (aside, a) = st.told(EventV::SetAside(true));
            let (stuck, b) = st.told(EventV::SetAside(false));
            let (gone, c) = st.told(EventV::Gone);
            &&& st.phase is SettingAside ==> aside.phase == PhaseV::Applying(true) && a == seq![
                TodoV::Apply(step.index, step.target),
            ]
            &&& st.phase is SettingAside ==> stuck.phase is Over && b.len() == 2 && b[0] is Do
                && b[1] is Refuse
            &&& st.phase is Burying ==> gone.phase == PhaseV::Applying(false) && c == seq![
                TodoV::Apply(step.index, step.target),
            ]
        }),
{
}

/// An index that was applied counts as made and as restored; one that was not counts as made,
/// so that it is taken back with the others, and the restore is refused.
pub proof fn law_what_was_applied_counts_as_made(st: RestoringV, aside: bool, why: Seq<char>)
    requires
        st.phase == PhaseV::Applying(aside),
        0 <= st.at < st.steps.len(),
    ensures
        ({
            let target = st.steps[st.at as int].target;
            let (next, _) = st.told(EventV::Ready);
            let (stopped, todo) = st.told(EventV::Failed(why));
            &&& next.made.len() == st.made.len() + 1 && next.made.last().target == target
                && next.made.last().aside == aside
            &&& next.restored == st.restored.push(target)
            &&& stopped.made.len() == st.made.len() + 1 && stopped.made.last().target == target
                && stopped.made.last().aside == aside
            &&& stopped.restored == st.restored
            &&& stopped.phase is Over && todo.len() == 2 && todo[0] is Do && (todo[1]
                matches TodoV::Refuse(a) && tells(a, 500, "repository_exception"@, why))
        }),
{
    law_a_refusal_tells_why(500, "repository_exception"@, why, Seq::empty());
}

/// A restore that is over hears nothing more.
pub proof fn law_a_restore_that_is_over_hears_nothing_more(st: RestoringV, e: EventV)
    requires
        st.phase is Over,
    ensures
        st.told(e) == (st, Seq::<TodoV>::empty()),
{
}

} // verus!
