//! A restore on its way: what is asked next, by what came of what was asked
//! before.
//!
//! First everything the restore will do is decided and everything it will read
//! is read, with nothing in the cluster touched. Then the indices are made, one
//! at a time. An index that is replaced is set aside rather than deleted, and
//! where one of them cannot be made whole every index that was made is taken
//! away again and every one that was set aside put back.

use vstd::prelude::*;

use super::restore::{
    choose_indices, chosen, comes_back, global_asked, keep_all, kept, open_exists, refuse_open,
    rename, restore_answer, restored_json, snapshot_uuid, streams_back, take_place, taking_place,
    target_name, undo, undone, uuid_of, Action, ActionV, Made, MadeV, Replaces, ReplacesV,
    Standing, StandingV,
};
use crate::api::answer::{done, err, list_at, refused, texts_at, told, Answer, AnswerV};
use crate::json::{Json, JsonV};
use crate::list::{keep, push_to};

verus! {

/// One index that is restored: what it is called in the snapshot, what it is
/// given back as, and what it takes the place of.
pub struct Step {
    pub index: String,
    pub target: String,
    pub replaces: Replaces,
}

#[verifier::ext_equal]
pub struct StepV {
    pub index: Seq<char>,
    pub target: Seq<char>,
    pub replaces: ReplacesV,
}

impl DeepView for Step {
    type V = StepV;

    open spec fn deep_view(&self) -> StepV {
        StepV {
            index: self.index@,
            target: self.target@,
            replaces: self.replaces.deep_view(),
        }
    }
}

/// What a restore waits for.
pub enum Phase {
    /// what is known of the name the next index is given back under
    Looking,
    /// whether the next index can be read, and what it will take the place of
    Checking(Replaces),
    /// whether the cluster's own state can be read
    Global,
    /// whether the index can be read again, right before it is used
    Reading,
    /// whether the index in its place was still closed, and is set aside
    SettingAside,
    /// that the cluster has let the index in its place go
    Burying,
    /// whether its documents could be put in, and whether one was set aside
    Applying(bool),
    /// that the closed index has been opened again
    Reopening,
    /// nothing any more
    Over,
}

#[verifier::ext_equal]
pub enum PhaseV {
    Looking,
    Checking(ReplacesV),
    Global,
    Reading,
    SettingAside,
    Burying,
    Applying(bool),
    Reopening,
    Over,
}

impl DeepView for Phase {
    type V = PhaseV;

    open spec fn deep_view(&self) -> PhaseV {
        match self {
            Phase::Looking => PhaseV::Looking,
            Phase::Checking(r) => PhaseV::Checking(r.deep_view()),
            Phase::Global => PhaseV::Global,
            Phase::Reading => PhaseV::Reading,
            Phase::SettingAside => PhaseV::SettingAside,
            Phase::Burying => PhaseV::Burying,
            Phase::Applying(a) => PhaseV::Applying(*a),
            Phase::Reopening => PhaseV::Reopening,
            Phase::Over => PhaseV::Over,
        }
    }
}

/// What came of what was asked.
pub enum Event {
    Known(Standing),
    Ready,
    Failed(String),
    SetAside(bool),
    Gone,
}

pub enum EventV {
    Known(StandingV),
    Ready,
    Failed(Seq<char>),
    SetAside(bool),
    Gone,
}

impl DeepView for Event {
    type V = EventV;

    open spec fn deep_view(&self) -> EventV {
        match self {
            Event::Known(s) => EventV::Known(s.deep_view()),
            Event::Ready => EventV::Ready,
            Event::Failed(e) => EventV::Failed(e@),
            Event::SetAside(b) => EventV::SetAside(*b),
            Event::Gone => EventV::Gone,
        }
    }
}

/// What is asked next.
pub enum Todo {
    /// find out what is known of a name
    Look(String),
    /// read an index of the snapshot, and check it
    Prepare(String),
    ReadGlobal,
    /// open a closed index again, there being nothing to read it back from
    Reopen(String),
    /// set an index aside, if it is still closed
    SetAside(String),
    /// delete an index held only by other nodes, by its uuid
    Bury(String, String),
    /// put the documents of an index of the snapshot into an index
    Apply(String, String),
    Do(Vec<Action>),
    /// put the cluster's own state in, as it was read
    ApplyGlobal,
    Refuse(Answer),
    /// find out which streams there are, and finish with them
    Finish,
}

#[verifier::ext_equal]
pub enum TodoV {
    Look(Seq<char>),
    Prepare(Seq<char>),
    ReadGlobal,
    Reopen(Seq<char>),
    SetAside(Seq<char>),
    Bury(Seq<char>, Seq<char>),
    Apply(Seq<char>, Seq<char>),
    Do(Seq<ActionV>),
    ApplyGlobal,
    Refuse(AnswerV),
    Finish,
}

impl DeepView for Todo {
    type V = TodoV;

    open spec fn deep_view(&self) -> TodoV {
        match self {
            Todo::Look(t) => TodoV::Look(t@),
            Todo::Prepare(n) => TodoV::Prepare(n@),
            Todo::ReadGlobal => TodoV::ReadGlobal,
            Todo::Reopen(t) => TodoV::Reopen(t@),
            Todo::SetAside(t) => TodoV::SetAside(t@),
            Todo::Bury(t, u) => TodoV::Bury(t@, u@),
            Todo::Apply(n, t) => TodoV::Apply(n@, t@),
            Todo::Do(a) => TodoV::Do(a.deep_view()),
            Todo::ApplyGlobal => TodoV::ApplyGlobal,
            Todo::Refuse(a) => TodoV::Refuse(a.deep_view()),
            Todo::Finish => TodoV::Finish,
        }
    }
}

/// A restore on its way.
pub struct Restoring {
    pub repo: String,
    pub name: String,
    pub uuid: String,
    pub body: Json,
    /// whether there is somewhere to read the indices back from
    pub from: bool,
    /// whether the cluster's own state comes back too
    pub global: bool,
    /// the streams the snapshot recorded
    pub streams: Vec<String>,
    /// the indices of the snapshot that are restored
    pub chosen: Vec<String>,
    pub steps: Vec<Step>,
    pub made: Vec<Made>,
    pub restored: Vec<String>,
    /// which of the indices, or of the steps, is next
    pub at: usize,
    pub phase: Phase,
}

#[verifier::ext_equal]
pub struct RestoringV {
    pub repo: Seq<char>,
    pub name: Seq<char>,
    pub uuid: Seq<char>,
    pub body: JsonV,
    pub from: bool,
    pub global: bool,
    pub streams: Seq<Seq<char>>,
    pub chosen: Seq<Seq<char>>,
    pub steps: Seq<StepV>,
    pub made: Seq<MadeV>,
    pub restored: Seq<Seq<char>>,
    pub at: nat,
    pub phase: PhaseV,
}

impl DeepView for Restoring {
    type V = RestoringV;

    open spec fn deep_view(&self) -> RestoringV {
        RestoringV {
            repo: self.repo@,
            name: self.name@,
            uuid: self.uuid@,
            body: self.body.deep_view(),
            from: self.from,
            global: self.global,
            streams: self.streams.deep_view(),
            chosen: self.chosen.deep_view(),
            steps: self.steps.deep_view(),
            made: self.made.deep_view(),
            restored: self.restored.deep_view(),
            at: self.at as nat,
            phase: self.phase.deep_view(),
        }
    }
}

pub open spec fn unreadable(why: Seq<char>) -> AnswerV {
    refused(500, "repository_exception"@, why)
}

impl RestoringV {
    /// Whether a restore waits for something of an index there is.
    pub open spec fn valid(self) -> bool {
        match self.phase {
            PhaseV::Looking | PhaseV::Checking(_) => self.at < self.chosen.len(),
            PhaseV::Reading | PhaseV::SettingAside | PhaseV::Burying | PhaseV::Applying(_)
            | PhaseV::Reopening => self.at < self.steps.len(),
            PhaseV::Global | PhaseV::Over => true,
        }
    }

    /// The name the next index is given back under.
    pub open spec fn target(self) -> Seq<char> {
        target_name(self.chosen[self.at as int], self.body)
    }

    /// The next step is made, or what was made is kept.
    pub open spec fn making(self) -> (RestoringV, Seq<TodoV>) {
        if self.at < self.steps.len() {
            let step = self.steps[self.at as int];
            if self.from {
                (
                    RestoringV { phase: PhaseV::Reading, ..self },
                    seq![TodoV::Prepare(step.index)],
                )
            } else {
                (
                    RestoringV { phase: PhaseV::Reopening, ..self },
                    seq![TodoV::Reopen(step.target)],
                )
            }
        } else {
            (
                RestoringV { phase: PhaseV::Over, ..self },
                if self.global && self.from {
                    seq![
                        TodoV::Do(kept(self.made, self.made.len())),
                        TodoV::ApplyGlobal,
                        TodoV::Finish,
                    ]
                } else {
                    seq![TodoV::Do(kept(self.made, self.made.len())), TodoV::Finish]
                },
            )
        }
    }

    /// The next index is looked at, or all of them have been.
    pub open spec fn looking(self) -> (RestoringV, Seq<TodoV>) {
        if self.at < self.chosen.len() {
            (
                RestoringV { phase: PhaseV::Looking, ..self },
                seq![TodoV::Look(self.target())],
            )
        } else if self.global && self.from {
            (RestoringV { phase: PhaseV::Global, ..self }, seq![TodoV::ReadGlobal])
        } else {
            RestoringV { at: 0, ..self }.making()
        }
    }

    /// The restore is refused, with nothing touched yet.
    pub open spec fn refusing(self, why: AnswerV) -> (RestoringV, Seq<TodoV>) {
        (RestoringV { phase: PhaseV::Over, ..self }, seq![TodoV::Refuse(why)])
    }

    /// The restore is taken back, and refused.
    pub open spec fn failing(self, why: AnswerV) -> (RestoringV, Seq<TodoV>) {
        (
            RestoringV { phase: PhaseV::Over, ..self },
            seq![TodoV::Do(undone(self.made, self.made.len())), TodoV::Refuse(why)],
        )
    }

    /// The index at hand is one that is restored; the next is looked at.
    pub open spec fn decided(self, r: ReplacesV) -> (RestoringV, Seq<TodoV>) {
        RestoringV {
            steps: self.steps.push(
                StepV { index: self.chosen[self.at as int], target: self.target(), replaces: r },
            ),
            at: self.at + 1,
            ..self
        }.looking()
    }

    /// The documents of the index at hand are put in.
    pub open spec fn applying(self, aside: bool) -> (RestoringV, Seq<TodoV>) {
        let step = self.steps[self.at as int];
        (
            RestoringV { phase: PhaseV::Applying(aside), ..self },
            seq![TodoV::Apply(step.index, step.target)],
        )
    }

    /// The restore with the index at hand made, whether it is whole or not.
    pub open spec fn with_made(self, aside: bool) -> RestoringV {
        RestoringV {
            made: self.made.push(MadeV { target: self.steps[self.at as int].target, aside }),
            ..self
        }
    }

    /// The restore with the index at hand brought back.
    pub open spec fn brought_back(self) -> RestoringV {
        RestoringV {
            restored: self.restored.push(self.steps[self.at as int].target),
            at: self.at + 1,
            ..self
        }
    }

    /// What is asked next, by what came of what was asked before.
    pub open spec fn told(self, e: EventV) -> (RestoringV, Seq<TodoV>) {
        match (self.phase, e) {
            (PhaseV::Looking, EventV::Known(s)) => match taking_place(
                self.repo,
                self.name,
                self.uuid,
                self.target(),
                s,
            ) {
                Err(why) => self.refusing(why),
                Ok(r) => if self.from {
                    (
                        RestoringV { phase: PhaseV::Checking(r), ..self },
                        seq![TodoV::Prepare(self.chosen[self.at as int])],
                    )
                } else if r is Nothing {
                    RestoringV { at: self.at + 1, ..self }.looking()
                } else {
                    self.decided(r)
                },
            },
            (PhaseV::Checking(r), EventV::Ready) => self.decided(r),
            (PhaseV::Checking(r), EventV::Failed(why)) => self.refusing(unreadable(why)),
            (PhaseV::Global, EventV::Ready) => RestoringV { at: 0, ..self }.making(),
            (PhaseV::Global, EventV::Failed(why)) => self.refusing(
                refused(500, "snapshot_restore_exception"@, why),
            ),
            (PhaseV::Reading, EventV::Ready) => match self.steps[self.at as int].replaces {
                ReplacesV::Nothing => self.applying(false),
                ReplacesV::ClosedHere => (
                    RestoringV { phase: PhaseV::SettingAside, ..self },
                    seq![TodoV::SetAside(self.steps[self.at as int].target)],
                ),
                ReplacesV::ClosedElsewhere(uuid) => (
                    RestoringV { phase: PhaseV::Burying, ..self },
                    seq![TodoV::Bury(self.steps[self.at as int].target, uuid)],
                ),
            },
            (PhaseV::Reading, EventV::Failed(why)) => self.failing(unreadable(why)),
            (PhaseV::SettingAside, EventV::SetAside(done)) => if done {
                self.applying(true)
            } else {
                self.failing(
                    open_exists(
                        self.repo,
                        self.name,
                        self.uuid,
                        self.steps[self.at as int].target,
                    ),
                )
            },
            (PhaseV::Burying, EventV::Gone) => self.applying(false),
            (PhaseV::Applying(aside), EventV::Ready) => self.with_made(
                aside,
            ).brought_back().making(),
            (PhaseV::Applying(aside), EventV::Failed(why)) => self.with_made(aside).failing(
                unreadable(why),
            ),
            (PhaseV::Reopening, EventV::Ready) => self.brought_back().making(),
            _ => (self, Seq::empty()),
        }
    }
}

fn one(t: Todo) -> (r: Vec<Todo>)
    ensures
        r.deep_view() == seq![t.deep_view()],
{
    let mut r: Vec<Todo> = Vec::new();
    r.push(t);
    assert(r.deep_view() =~= seq![t.deep_view()]);
    r
}

fn two(a: Todo, b: Todo) -> (r: Vec<Todo>)
    ensures
        r.deep_view() == seq![a.deep_view(), b.deep_view()],
{
    let mut r: Vec<Todo> = Vec::new();
    r.push(a);
    r.push(b);
    assert(r.deep_view() =~= seq![a.deep_view(), b.deep_view()]);
    r
}

fn copy_replaces(r: &Replaces) -> (x: Replaces)
    ensures
        x.deep_view() == r.deep_view(),
{
    match r {
        Replaces::Nothing => Replaces::Nothing,
        Replaces::ClosedHere => Replaces::ClosedHere,
        Replaces::ClosedElsewhere(u) => Replaces::ClosedElsewhere(u.clone()),
    }
}

/// A restore that begins: its indices are looked at before anything is touched.
pub open spec fn beginning(
    repo: Seq<char>,
    name: Seq<char>,
    source: JsonV,
    body: JsonV,
    from: bool,
    indices: Seq<Seq<char>>,
) -> (RestoringV, Seq<TodoV>) {
    RestoringV {
        repo,
        name,
        uuid: uuid_of(source),
        body,
        from,
        global: told(body, "include_global_state"@) == Some(true) && told(
            source,
            "include_global_state"@,
        ) == Some(true),
        streams: texts_at(source, "data_streams"@),
        chosen: indices,
        steps: Seq::empty(),
        made: Seq::empty(),
        restored: Seq::empty(),
        at: 0,
        phase: PhaseV::Over,
    }.looking()
}

/// A restore as it is asked for: it begins, or is refused.
pub open spec fn restore_asked(
    repo: Seq<char>,
    name: Seq<char>,
    source: Option<JsonV>,
    body: JsonV,
    path_lenient: bool,
    from: bool,
) -> Result<(RestoringV, Seq<TodoV>), AnswerV> {
    match chosen(repo, name, source, body, path_lenient) {
        Err(why) => Err(why),
        Ok(indices) => Ok(beginning(repo, name, source->0, body, from, indices)),
    }
}

/// A restore of a snapshot, and what is asked first, or why it may not be.
/// `source` is the snapshot's record, where there is one, and `from` says
/// whether there is a repository to read the indices back from.
pub fn restore_snapshot(
    repo: &str,
    name: &str,
    source: Option<&Json>,
    body: Json,
    path_lenient: bool,
    from: bool,
) -> (r: Result<(Restoring, Vec<Todo>), Answer>)
    ensures
        match r {
            Ok((st, todo)) => st.deep_view().valid() && restore_asked(
                repo@,
                name@,
                source.deep_view(),
                body.deep_view(),
                path_lenient,
                from,
            ) == Ok::<(RestoringV, Seq<TodoV>), AnswerV>((st.deep_view(), todo.deep_view())),
            Err(why) => restore_asked(
                repo@,
                name@,
                source.deep_view(),
                body.deep_view(),
                path_lenient,
                from,
            ) == Err::<(RestoringV, Seq<TodoV>), AnswerV>(why.deep_view()),
        },
{
    match choose_indices(repo, name, source, &body, path_lenient) {
        Ok(indices) => Ok(begin(repo, name, source.unwrap(), body, from, indices)),
        Err(why) => Err(why),
    }
}

fn begin(
    repo: &str,
    name: &str,
    source: &Json,
    body: Json,
    from: bool,
    indices: Vec<String>,
) -> (r: (Restoring, Vec<Todo>))
    ensures
        (r.0.deep_view(), r.1.deep_view()) == beginning(
            repo@,
            name@,
            source.deep_view(),
            body.deep_view(),
            from,
            indices.deep_view(),
        ),
        r.0.deep_view().valid(),
{
    let global = global_asked(source, &body);
    let mut st = Restoring {
        repo: repo.to_owned(),
        name: name.to_owned(),
        uuid: snapshot_uuid(source),
        body,
        from,
        global,
        streams: list_at(source, "data_streams"),
        chosen: indices,
        steps: Vec::new(),
        made: Vec::new(),
        restored: Vec::new(),
        at: 0,
        phase: Phase::Over,
    };
    assert(st.steps.deep_view() =~= Seq::<StepV>::empty());
    assert(st.made.deep_view() =~= Seq::<MadeV>::empty());
    assert(st.restored.deep_view() =~= Seq::<Seq<char>>::empty());
    let todo = st.look();
    (st, todo)
}

impl Restoring {
    fn make(&mut self) -> (r: Vec<Todo>)
        ensures
            (final(self).deep_view(), r.deep_view()) == old(self).deep_view().making(),
            final(self).deep_view().valid(),
            final(self).at == old(self).at,
            final(self).chosen == old(self).chosen,
            final(self).steps == old(self).steps,
    {
        assert(self.steps.deep_view().len() == self.steps@.len());
        assert(self.made.deep_view().len() == self.made@.len());
        if self.at < self.steps.len() {
            assert(self.steps.deep_view()[self.at as int] == self.steps@[self.at as int].deep_view());
            let index = self.steps[self.at].index.clone();
            let target = self.steps[self.at].target.clone();
            if self.from {
                self.phase = Phase::Reading;
                one(Todo::Prepare(index))
            } else {
                self.phase = Phase::Reopening;
                one(Todo::Reopen(target))
            }
        } else {
            self.phase = Phase::Over;
            let mut todo = one(Todo::Do(keep_all(&self.made)));
            if self.global && self.from {
                push_to(&mut todo, Todo::ApplyGlobal);
            }
            push_to(&mut todo, Todo::Finish);
            assert(todo.deep_view() =~= old(self).deep_view().making().1);
            todo
        }
    }

    fn look(&mut self) -> (r: Vec<Todo>)
        ensures
            (final(self).deep_view(), r.deep_view()) == old(self).deep_view().looking(),
            final(self).deep_view().valid(),
    {
        assert(self.chosen.deep_view().len() == self.chosen@.len());
        if self.at < self.chosen.len() {
            assert(self.chosen.deep_view()[self.at as int] == self.chosen@[self.at as int]@);
            let target = rename(self.chosen[self.at].as_str(), &self.body);
            self.phase = Phase::Looking;
            one(Todo::Look(target))
        } else if self.global && self.from {
            self.phase = Phase::Global;
            one(Todo::ReadGlobal)
        } else {
            self.at = 0;
            self.make()
        }
    }

    fn refuse(&mut self, why: Answer) -> (r: Vec<Todo>)
        ensures
            (final(self).deep_view(), r.deep_view()) == old(self).deep_view().refusing(
                why.deep_view(),
            ),
            final(self).deep_view().valid(),
    {
        self.phase = Phase::Over;
        one(Todo::Refuse(why))
    }

    fn fail(&mut self, why: Answer) -> (r: Vec<Todo>)
        ensures
            (final(self).deep_view(), r.deep_view()) == old(self).deep_view().failing(
                why.deep_view(),
            ),
            final(self).deep_view().valid(),
    {
        self.phase = Phase::Over;
        assert(self.made.deep_view().len() == self.made@.len());
        two(Todo::Do(undo(&self.made)), Todo::Refuse(why))
    }

    fn decide(&mut self, r: Replaces) -> (todo: Vec<Todo>)
        requires
            old(self).at < old(self).chosen.len(),
        ensures
            (final(self).deep_view(), todo.deep_view()) == old(self).deep_view().decided(
                r.deep_view(),
            ),
            final(self).deep_view().valid(),
    {
        assert(self.chosen.deep_view()[self.at as int] == self.chosen@[self.at as int]@);
        let index = self.chosen[self.at].clone();
        let target = rename(index.as_str(), &self.body);
        push_to(&mut self.steps, Step { index, target, replaces: r });
        self.at = self.at + 1;
        self.look()
    }

    fn apply(&mut self, aside: bool) -> (todo: Vec<Todo>)
        requires
            old(self).at < old(self).steps.len(),
        ensures
            (final(self).deep_view(), todo.deep_view()) == old(self).deep_view().applying(aside),
            final(self).deep_view().valid(),
    {
        assert(self.steps.deep_view()[self.at as int] == self.steps@[self.at as int].deep_view());
        self.phase = Phase::Applying(aside);
        one(
            Todo::Apply(
                self.steps[self.at].index.clone(),
                self.steps[self.at].target.clone(),
            ),
        )
    }

    fn note_made(&mut self, aside: bool)
        requires
            old(self).at < old(self).steps.len(),
        ensures
            final(self).deep_view() == old(self).deep_view().with_made(aside),
            final(self).at == old(self).at,
            final(self).steps == old(self).steps,
    {
        assert(self.steps.deep_view()[self.at as int] == self.steps@[self.at as int].deep_view());
        let target = self.steps[self.at].target.clone();
        push_to(&mut self.made, Made { target, aside });
    }

    fn bring_back(&mut self)
        requires
            old(self).at < old(self).steps.len(),
        ensures
            final(self).deep_view() == old(self).deep_view().brought_back(),
    {
        assert(self.steps.deep_view()[self.at as int] == self.steps@[self.at as int].deep_view());
        let target = self.steps[self.at].target.clone();
        push_to(&mut self.restored, target);
        self.at = self.at + 1;
    }

    fn know(&mut self, s: &Standing) -> (todo: Vec<Todo>)
        requires
            old(self).phase is Looking,
            old(self).deep_view().valid(),
        ensures
            (final(self).deep_view(), todo.deep_view()) == old(self).deep_view().told(
                EventV::Known(s.deep_view()),
            ),
            final(self).deep_view().valid(),
    {
        assert(self.chosen.deep_view().len() == self.chosen@.len());
        assert(self.chosen.deep_view()[self.at as int] == self.chosen@[self.at as int]@);
        assert(self.at < self.chosen.len());
        let index = self.chosen[self.at].clone();
        let target = rename(index.as_str(), &self.body);
        match take_place(
            self.repo.as_str(),
            self.name.as_str(),
            self.uuid.as_str(),
            target.as_str(),
            s,
        ) {
            Err(why) => self.refuse(why),
            Ok(r) => {
                let nothing = match &r {
                    Replaces::Nothing => true,
                    _ => false,
                };
                if self.from {
                    self.phase = Phase::Checking(r);
                    one(Todo::Prepare(index))
                } else if nothing {
                    self.at = self.at + 1;
                    self.look()
                } else {
                    self.decide(r)
                }
            },
        }
    }

    fn read(&mut self) -> (todo: Vec<Todo>)
        requires
            old(self).phase is Reading,
            old(self).deep_view().valid(),
        ensures
            (final(self).deep_view(), todo.deep_view()) == old(self).deep_view().told(
                EventV::Ready,
            ),
            final(self).deep_view().valid(),
    {
        assert(self.steps.deep_view().len() == self.steps@.len());
        assert(self.steps.deep_view()[self.at as int] == self.steps@[self.at as int].deep_view());
        let target = self.steps[self.at].target.clone();
        match copy_replaces(&self.steps[self.at].replaces) {
            Replaces::Nothing => self.apply(false),
            Replaces::ClosedHere => {
                self.phase = Phase::SettingAside;
                one(Todo::SetAside(target))
            },
            Replaces::ClosedElsewhere(uuid) => {
                self.phase = Phase::Burying;
                one(Todo::Bury(target, uuid))
            },
        }
    }

    fn set_aside(&mut self, done: bool) -> (todo: Vec<Todo>)
        requires
            old(self).phase is SettingAside,
            old(self).deep_view().valid(),
        ensures
            (final(self).deep_view(), todo.deep_view()) == old(self).deep_view().told(
                EventV::SetAside(done),
            ),
            final(self).deep_view().valid(),
    {
        assert(self.steps.deep_view().len() == self.steps@.len());
        if done {
            return self.apply(true);
        }
        assert(self.steps.deep_view()[self.at as int] == self.steps@[self.at as int].deep_view());
        let why = refuse_open(
            self.repo.as_str(),
            self.name.as_str(),
            self.uuid.as_str(),
            self.steps[self.at].target.as_str(),
        );
        self.fail(why)
    }

    /// What is asked next, by what came of what was asked before.
    pub fn tell(&mut self, e: Event) -> (todo: Vec<Todo>)
        requires
            old(self).deep_view().valid(),
        ensures
            (final(self).deep_view(), todo.deep_view()) == old(self).deep_view().told(
                e.deep_view(),
            ),
            final(self).deep_view().valid(),
    {
        assert(self.chosen.deep_view().len() == self.chosen@.len());
        assert(self.steps.deep_view().len() == self.steps@.len());
        match (&self.phase, e) {
            (Phase::Looking, Event::Known(s)) => self.know(&s),
            (Phase::Checking(r), Event::Ready) => {
                let r = copy_replaces(r);
                self.decide(r)
            },
            (Phase::Checking(_), Event::Failed(why)) => self.refuse(
                err(500, "repository_exception", why.as_str()),
            ),
            (Phase::Global, Event::Ready) => {
                self.at = 0;
                self.make()
            },
            (Phase::Global, Event::Failed(why)) => self.refuse(
                err(500, "snapshot_restore_exception", why.as_str()),
            ),
            (Phase::Reading, Event::Ready) => self.read(),
            (Phase::Reading, Event::Failed(why)) => self.fail(
                err(500, "repository_exception", why.as_str()),
            ),
            (Phase::SettingAside, Event::SetAside(done)) => self.set_aside(done),
            (Phase::Burying, Event::Gone) => self.apply(false),
            (Phase::Applying(aside), Event::Ready) => {
                let aside = *aside;
                self.note_made(aside);
                self.bring_back();
                self.make()
            },
            (Phase::Applying(aside), Event::Failed(why)) => {
                let aside = *aside;
                self.note_made(aside);
                self.fail(err(500, "repository_exception", why.as_str()))
            },
            (Phase::Reopening, Event::Ready) => {
                self.bring_back();
                self.make()
            },
            _ => {
                let none: Vec<Todo> = Vec::new();
                assert(none.deep_view() =~= Seq::<TodoV>::empty());
                none
            },
        }
    }

    /// The streams that are put back, and what the restore is answered: the
    /// streams the snapshot recorded come back with whichever of their backing
    /// indices the restore made. `there` are the streams there are.
    pub fn finish(&self, there: &Vec<String>) -> (r: (Vec<String>, Answer))
        ensures
            r.0.deep_view() == keep(
                self.deep_view().streams,
                comes_back(self.deep_view().restored, there.deep_view()),
            ),
            r.1.deep_view() == done(
                restored_json(self.deep_view().name, self.deep_view().restored),
            ),
    {
        (
            streams_back(&self.streams, &self.restored, there),
            restore_answer(self.name.as_str(), &self.restored),
        )
    }
}

// ---- what holds of it ----------------------------------------------------------

/// Whether what is asked changes anything in the cluster.
pub open spec fn touches(t: TodoV) -> bool {
    !(t is Look || t is Prepare || t is ReadGlobal || t is Refuse || t is Finish)
}

/// A restore once it has been told some events, and all it asked for on the way.
pub open spec fn played(begun: (RestoringV, Seq<TodoV>), events: Seq<EventV>) -> (
    RestoringV,
    Seq<TodoV>,
)
    decreases events.len(),
{
    if events.len() == 0 {
        begun
    } else {
        let (st, asked) = played(begun, events.drop_last());
        let (next, todo) = st.told(events.last());
        (next, asked + todo)
    }
}

/// Whether a restore is still looking at what it would do.
pub open spec fn is_checking(st: RestoringV) -> bool {
    st.phase is Looking || st.phase is Checking || st.phase is Global
}

/// Whether the first indices that were chosen, and no others, are to be made.
pub open spec fn decided_up_to(st: RestoringV, n: nat) -> bool {
    &&& st.steps.len() == n
    &&& forall|k: int|
        0 <= k < n ==> (#[trigger] st.steps[k]).target == target_name(st.chosen[k], st.body)
            && st.steps[k].index == st.chosen[k]
}

/// Whether the first steps, and no others, have been made.
pub open spec fn restored_up_to(st: RestoringV, n: nat) -> bool {
    &&& st.restored.len() == n
    &&& forall|k: int| 0 <= k < n ==> #[trigger] st.restored[k] == st.steps[k].target
}

/// Whether what a restore asked for so far is in its order: nothing is touched
/// while it is checking, it makes what it decided, step by step, and it ends
/// when every step is made.
spec fn orderly(st: RestoringV, asked: Seq<TodoV>) -> bool {
    &&& st.valid()
    &&& is_checking(st) ==> (forall|i: int|
        0 <= i < asked.len() ==> !touches(#[trigger] asked[i]))
    &&& is_checking(st) ==> st.restored.len() == 0
    &&& st.from && (st.phase is Looking || st.phase is Checking) ==> decided_up_to(st, st.at)
    &&& st.from && !(st.phase is Looking || st.phase is Checking || st.phase is Over)
        ==> decided_up_to(st, st.chosen.len())
    &&& !is_checking(st) && !(st.phase is Over) ==> restored_up_to(st, st.at)
    &&& asked.contains(TodoV::Finish) ==> st.phase is Over && restored_up_to(st, st.steps.len())
    &&& asked.contains(TodoV::Finish) && st.from ==> decided_up_to(st, st.chosen.len())
}

/// What a restore asks for from now on is in its order.
proof fn lemma_making(st: RestoringV, asked: Seq<TodoV>)
    requires
        st.at <= st.steps.len(),
        restored_up_to(st, st.at),
        st.from ==> decided_up_to(st, st.chosen.len()),
        !asked.contains(TodoV::Finish),
    ensures
        orderly(st.making().0, asked + st.making().1),
{
    let (next, todo) = st.making();
    lemma_finish(asked, todo);
    if st.at < st.steps.len() {
        assert(!todo.contains(TodoV::Finish));
    }
}

proof fn lemma_finish(asked: Seq<TodoV>, todo: Seq<TodoV>)
    ensures
        (asked + todo).contains(TodoV::Finish) <==> asked.contains(TodoV::Finish)
            || todo.contains(TodoV::Finish),
{
    let all = asked + todo;
    if asked.contains(TodoV::Finish) {
        assert(all[asked.index_of(TodoV::Finish)] == TodoV::Finish);
    }
    if todo.contains(TodoV::Finish) {
        assert(all[asked.len() + todo.index_of(TodoV::Finish)] == TodoV::Finish);
    }
    if all.contains(TodoV::Finish) {
        let i = all.index_of(TodoV::Finish);
        if i < asked.len() {
            assert(asked[i] == TodoV::Finish);
        } else {
            assert(todo[i - asked.len()] == TodoV::Finish);
        }
    }
}

proof fn lemma_looking(st: RestoringV, asked: Seq<TodoV>)
    requires
        st.at <= st.chosen.len(),
        st.restored.len() == 0,
        st.from ==> decided_up_to(st, st.at),
        forall|i: int| 0 <= i < asked.len() ==> !touches(#[trigger] asked[i]),
        !asked.contains(TodoV::Finish),
    ensures
        orderly(st.looking().0, asked + st.looking().1),
{
    let (next, todo) = st.looking();
    if st.at < st.chosen.len() || (st.global && st.from) {
        lemma_finish(asked, todo);
        assert(!todo.contains(TodoV::Finish));
    } else {
        lemma_making(RestoringV { at: 0, ..st }, asked);
    }
}

proof fn lemma_told(st: RestoringV, asked: Seq<TodoV>, e: EventV)
    requires
        orderly(st, asked),
    ensures
        orderly(st.told(e).0, asked + st.told(e).1),
{
    let (next, todo) = st.told(e);
    lemma_finish(asked, todo);
    match (st.phase, e) {
        (PhaseV::Looking, EventV::Known(s)) => {
            match taking_place(st.repo, st.name, st.uuid, st.target(), s) {
                Err(why) => {
                    assert(!todo.contains(TodoV::Finish));
                },
                Ok(r) => {
                    if st.from {
                        assert(!todo.contains(TodoV::Finish));
                    } else if r is Nothing {
                        lemma_looking(RestoringV { at: st.at + 1, ..st }, asked);
                    } else {
                        lemma_decided(st, asked, r);
                    }
                },
            }
        },
        (PhaseV::Checking(r), EventV::Ready) => {
            lemma_decided(st, asked, r);
        },
        (PhaseV::Global, EventV::Ready) => {
            lemma_making(RestoringV { at: 0, ..st }, asked);
        },
        (PhaseV::Applying(aside), EventV::Ready) => {
            lemma_making(st.with_made(aside).brought_back(), asked);
        },
        (PhaseV::Reopening, EventV::Ready) => {
            lemma_making(st.brought_back(), asked);
        },
        _ => {
            assert(!todo.contains(TodoV::Finish));
            assert(todo.len() == 0 ==> asked + todo =~= asked);
        },
    }
}

proof fn lemma_decided(st: RestoringV, asked: Seq<TodoV>, r: ReplacesV)
    requires
        orderly(st, asked),
        st.phase is Looking || st.phase is Checking,
    ensures
        orderly(st.decided(r).0, asked + st.decided(r).1),
{
    lemma_looking(
        RestoringV {
            steps: st.steps.push(
                StepV { index: st.chosen[st.at as int], target: st.target(), replaces: r },
            ),
            at: st.at + 1,
            ..st
        },
        asked,
    );
}

proof fn lemma_played(begun: (RestoringV, Seq<TodoV>), events: Seq<EventV>)
    requires
        orderly(begun.0, begun.1),
    ensures
        orderly(played(begun, events).0, played(begun, events).1),
        played(begun, events).0.chosen == begun.0.chosen,
        played(begun, events).0.body == begun.0.body,
        played(begun, events).0.from == begun.0.from,
    decreases events.len(),
{
    if events.len() > 0 {
        lemma_played(begun, events.drop_last());
        let (st, asked) = played(begun, events.drop_last());
        lemma_told(st, asked, events.last());
    }
}

proof fn lemma_begun(
    repo: Seq<char>,
    name: Seq<char>,
    source: JsonV,
    body: JsonV,
    from: bool,
    indices: Seq<Seq<char>>,
)
    ensures
        ({
            let b = beginning(repo, name, source, body, from, indices);
            &&& orderly(b.0, b.1)
            &&& b.0.chosen == indices
            &&& b.0.body == body
            &&& b.0.from == from
        }),
{
    let st = RestoringV {
        repo,
        name,
        uuid: uuid_of(source),
        body,
        from,
        global: told(body, "include_global_state"@) == Some(true) && told(
            source,
            "include_global_state"@,
        ) == Some(true),
        streams: texts_at(source, "data_streams"@),
        chosen: indices,
        steps: Seq::empty(),
        made: Seq::empty(),
        restored: Seq::empty(),
        at: 0,
        phase: PhaseV::Over,
    };
    lemma_looking(st, Seq::empty());
    assert(Seq::<TodoV>::empty() + st.looking().1 =~= st.looking().1);
}

/// Nothing in the cluster is touched before every index has been looked at and
/// everything the restore will read has been read: whatever a restore is told,
/// as long as it is still checking all it asked for was to look and to read.
pub proof fn law_nothing_is_touched_before_all_is_checked(
    repo: Seq<char>,
    name: Seq<char>,
    source: JsonV,
    body: JsonV,
    from: bool,
    indices: Seq<Seq<char>>,
    events: Seq<EventV>,
    i: int,
)
    requires
        is_checking(played(beginning(repo, name, source, body, from, indices), events).0),
        0 <= i < played(beginning(repo, name, source, body, from, indices), events).1.len(),
    ensures
        !touches(played(beginning(repo, name, source, body, from, indices), events).1[i]),
{
    lemma_begun(repo, name, source, body, from, indices);
    lemma_played(beginning(repo, name, source, body, from, indices), events);
}

/// A restore that finishes has brought back every index it was asked for and no
/// other, each under the name it is given back as, whatever it was told on the
/// way.
pub proof fn law_a_restore_that_finishes_is_whole(
    repo: Seq<char>,
    name: Seq<char>,
    source: JsonV,
    body: JsonV,
    indices: Seq<Seq<char>>,
    events: Seq<EventV>,
)
    requires
        played(beginning(repo, name, source, body, true, indices), events).1.contains(
            TodoV::Finish,
        ),
    ensures
        played(beginning(repo, name, source, body, true, indices), events).0.restored
            == indices.map_values(|n: Seq<char>| target_name(n, body)),
{
    let begun = beginning(repo, name, source, body, true, indices);
    lemma_begun(repo, name, source, body, true, indices);
    lemma_played(begun, events);
    let st = played(begun, events).0;
    assert(st.restored =~= indices.map_values(|n: Seq<char>| target_name(n, body))) by {
        assert forall|k: int| 0 <= k < st.restored.len() implies st.restored[k] == target_name(
            indices[k],
            body,
        ) by {
            assert(st.restored[k] == st.steps[k].target);
        }
    }
}

/// Whether what a restore is told while its indices are made stops it: an index
/// cannot be read or put in, or one that was to be set aside is open.
pub open spec fn stops(st: RestoringV, e: EventV) -> bool {
    match (st.phase, e) {
        (PhaseV::Reading, EventV::Failed(_)) => true,
        (PhaseV::Applying(_), EventV::Failed(_)) => true,
        (PhaseV::SettingAside, EventV::SetAside(done)) => !done,
        _ => false,
    }
}

/// A restore that is stopped while its indices are made takes back every one
/// that it made before it says why, the one it stopped on with them where that
/// had been begun.
pub proof fn law_a_restore_that_is_stopped_is_taken_back(st: RestoringV, e: EventV)
    requires
        st.valid(),
        stops(st, e),
    ensures
        ({
            let (after, todo) = st.told(e);
            &&& todo.len() == 2
            &&& todo[0] == TodoV::Do(undone(after.made, after.made.len()))
            &&& todo[1] == TodoV::Refuse(
                match e {
                    EventV::Failed(why) => unreadable(why),
                    _ => open_exists(
                        st.repo,
                        st.name,
                        st.uuid,
                        st.steps[st.at as int].target,
                    ),
                },
            )
            &&& after.phase is Over
            &&& st.phase is Applying ==> after.made == st.made.push(
                MadeV {
                    target: st.steps[st.at as int].target,
                    aside: st.phase->Applying_0,
                },
            )
            &&& !(st.phase is Applying) ==> after.made == st.made
        }),
{
}

/// A restore that finishes has kept everything it made, and made every step of
/// it.
pub proof fn law_a_restore_that_finishes_made_every_step(st: RestoringV, e: EventV)
    requires
        st.valid(),
        st.told(e).1.contains(TodoV::Finish),
    ensures
        ({
            let (after, todo) = st.told(e);
            &&& after.at >= after.steps.len()
            &&& todo[0] == TodoV::Do(kept(after.made, after.made.len()))
        }),
{
    let (after, todo) = st.told(e);
    let k = todo.index_of(TodoV::Finish);
    assert(todo[k] == TodoV::Finish);
}

} // verus!
