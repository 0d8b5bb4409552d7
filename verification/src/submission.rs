//! The submission of the outputs of a task, one after the other.
//!
//! Each output is staged in a directory of its own, from which leftovers are removed
//! first. The directory is added to the store, and the path that the store returns
//! for it is submitted under the name of the output. What is done is decided here;
//! whoever does it reports what came of it.

use vstd::prelude::*;

use crate::store_path::StorePath;
use crate::task::CopyStep;
use crate::task::CopyStepView;
use crate::task::OutputFile;
use crate::task::OutputFileView;
use crate::task::StagedOutputView;
use crate::task::TaskError;
use crate::task::TaskErrorView;
use crate::task::stage_output;
use crate::task::staged;

verus! {

/// How far the output at hand has come.
enum Phase {
    Examine,
    Remove,
    Create,
    Copy,
    Add,
    Submit(StorePath),
}

/// How far the output at hand has come: what is to be done for it next.
pub enum PhaseView {
    /// See whether its staging directory is there.
    Examine,
    /// Remove what is there.
    Remove,
    /// Create the staging directory.
    Create,
    /// Copy the file into it.
    Copy,
    /// Add the staging directory to the store.
    Add,
    /// Submit the store path with this base.
    Submit(Seq<char>),
}

impl View for Phase {
    type V = PhaseView;

    closed spec fn view(&self) -> PhaseView {
        match self {
            Phase::Examine => PhaseView::Examine,
            Phase::Remove => PhaseView::Remove,
            Phase::Create => PhaseView::Create,
            Phase::Copy => PhaseView::Copy,
            Phase::Add => PhaseView::Add,
            Phase::Submit(path) => PhaseView::Submit(path@),
        }
    }
}

/// The submission of all outputs of a task.
pub struct Submission {
    root: Vec<u8>,
    outputs: Vec<OutputFile>,
    position: usize,
    phase: Phase,
}

/// The model of a [`Submission`].
pub struct SubmissionView {
    /// The directory below which outputs are staged.
    pub root: Seq<u8>,
    /// All outputs of the task.
    pub outputs: Seq<OutputFileView>,
    /// How many outputs are submitted.
    pub position: int,
    /// How far the next one has come.
    pub phase: PhaseView,
}

impl View for Submission {
    type V = SubmissionView;

    closed spec fn view(&self) -> SubmissionView {
        SubmissionView {
            root: self.root@,
            outputs: output_views(self.outputs@),
            position: self.position as int,
            phase: self.phase@,
        }
    }
}

/// What is to be done next in a submission.
#[derive(Debug)]
pub enum SubmitAction {
    /// See whether there is anything at this path.
    Examine(Vec<u8>),
    /// Remove the directory at this path with all that it holds.
    Remove(Vec<u8>),
    /// Create a directory at this path.
    Create(Vec<u8>),
    /// Copy a file.
    Copy(CopyStep),
    /// Add the directory to the store under this name.
    Add { name: String, staging: Vec<u8> },
    /// Submit the store path as the output of this name.
    Submit { name: String, path: StorePath },
    /// Give up: this output cannot be submitted.
    Refuse(TaskError),
    /// All outputs are submitted.
    Finish,
}

/// The model of a [`SubmitAction`]; a store path is given by its base.
pub enum SubmitActionView {
    Examine(Seq<u8>),
    Remove(Seq<u8>),
    Create(Seq<u8>),
    Copy(CopyStepView),
    Add { name: Seq<char>, staging: Seq<u8> },
    Submit { name: Seq<char>, path: Seq<char> },
    Refuse(TaskErrorView),
    Finish,
}

impl View for SubmitAction {
    type V = SubmitActionView;

    open spec fn view(&self) -> SubmitActionView {
        match self {
            SubmitAction::Examine(staging) => SubmitActionView::Examine(staging@),
            SubmitAction::Remove(staging) => SubmitActionView::Remove(staging@),
            SubmitAction::Create(staging) => SubmitActionView::Create(staging@),
            SubmitAction::Copy(copy) => SubmitActionView::Copy(copy@),
            SubmitAction::Add { name, staging } => SubmitActionView::Add {
                name: name@,
                staging: staging@,
            },
            SubmitAction::Submit { name, path } => SubmitActionView::Submit {
                name: name@,
                path: path@,
            },
            SubmitAction::Refuse(error) => SubmitActionView::Refuse(error@),
            SubmitAction::Finish => SubmitActionView::Finish,
        }
    }
}

/// What came of an action.
#[derive(Debug)]
pub enum SubmitEvent {
    /// There is something at the path that was examined, or there is nothing.
    Found(bool),
    /// The action succeeded, and that is all there is to say.
    Done,
    /// The directory is in the store, at this path.
    Added(StorePath),
}

/// The model of a [`SubmitEvent`]; a store path is given by its base.
pub enum SubmitEventView {
    Found(bool),
    Done,
    Added(Seq<char>),
}

impl View for SubmitEvent {
    type V = SubmitEventView;

    open spec fn view(&self) -> SubmitEventView {
        match self {
            SubmitEvent::Found(exists) => SubmitEventView::Found(*exists),
            SubmitEvent::Done => SubmitEventView::Done,
            SubmitEvent::Added(path) => SubmitEventView::Added(path@),
        }
    }
}

/// What is to be done for an output that is staged like this.
pub open spec fn action_in(phase: PhaseView, plan: StagedOutputView) -> SubmitActionView {
    match phase {
        PhaseView::Examine => SubmitActionView::Examine(plan.staging),
        PhaseView::Remove => SubmitActionView::Remove(plan.staging),
        PhaseView::Create => SubmitActionView::Create(plan.staging),
        PhaseView::Copy => SubmitActionView::Copy(plan.copy),
        PhaseView::Add => SubmitActionView::Add { name: plan.name, staging: plan.staging },
        PhaseView::Submit(path) => SubmitActionView::Submit { name: plan.name, path },
    }
}

/// What is to be done next.
pub open spec fn action_of(state: SubmissionView) -> SubmitActionView {
    if state.position >= state.outputs.len() {
        SubmitActionView::Finish
    } else {
        match staged(state.root, state.outputs[state.position]) {
            Ok(plan) => action_in(state.phase, plan),
            Err(error) => SubmitActionView::Refuse(error),
        }
    }
}

/// Where an event leaves a submission. An event that is no answer to what was to be
/// done changes nothing; there is no answer to a refusal, nor after the end.
pub open spec fn after_event(state: SubmissionView, event: SubmitEventView) -> SubmissionView {
    match (action_of(state), event) {
        (SubmitActionView::Examine(_), SubmitEventView::Found(exists)) => SubmissionView {
            phase: if exists {
                PhaseView::Remove
            } else {
                PhaseView::Create
            },
            ..state
        },
        (SubmitActionView::Remove(_), SubmitEventView::Done) => SubmissionView {
            phase: PhaseView::Create,
            ..state
        },
        (SubmitActionView::Create(_), SubmitEventView::Done) => SubmissionView {
            phase: PhaseView::Copy,
            ..state
        },
        (SubmitActionView::Copy(_), SubmitEventView::Done) => SubmissionView {
            phase: PhaseView::Add,
            ..state
        },
        (SubmitActionView::Add { .. }, SubmitEventView::Added(path)) => SubmissionView {
            phase: PhaseView::Submit(path),
            ..state
        },
        (SubmitActionView::Submit { .. }, SubmitEventView::Done) => SubmissionView {
            position: state.position + 1,
            phase: PhaseView::Examine,
            ..state
        },
        _ => state,
    }
}

/// The views of outputs.
pub open spec fn output_views(outputs: Seq<OutputFile>) -> Seq<OutputFileView> {
    Seq::new(outputs.len(), |i: int| outputs[i]@)
}

/// A submission of which nothing is done yet.
pub open spec fn fresh(root: Seq<u8>, outputs: Seq<OutputFileView>) -> SubmissionView {
    SubmissionView { root, outputs, position: 0, phase: PhaseView::Examine }
}

impl Submission {
    #[verifier::type_invariant]
    spec fn in_range(self) -> bool {
        self.position <= self.outputs@.len()
    }

    /// A submission of which nothing is done yet.
    pub fn new(root: Vec<u8>, outputs: Vec<OutputFile>) -> (r: Submission)
        ensures
            r@ == fresh(root@, output_views(outputs@)),
            r@.root == root@,
            r@.outputs.len() == outputs@.len(),
            forall|i: int|
                0 <= i < outputs@.len() ==> #[trigger] r@.outputs[i] == outputs@[i]@,
            r@.position == 0,
            r@.phase is Examine,
    {
        Submission { root, outputs, position: 0, phase: Phase::Examine }
    }

    /// What is to be done next.
    pub fn next_action(&self) -> (r: SubmitAction)
        ensures
            0 <= self@.position <= self@.outputs.len(),
            r@ == action_of(self@),
    {
        proof {
            use_type_invariant(self);
        }
        if self.position == self.outputs.len() {
            return SubmitAction::Finish;
        }
        let plan = match stage_output(self.root.as_slice(), &self.outputs[self.position]) {
            Ok(plan) => plan,
            Err(e) => {
                return SubmitAction::Refuse(e);
            },
        };
        match &self.phase {
            Phase::Examine => SubmitAction::Examine(plan.staging),
            Phase::Remove => SubmitAction::Remove(plan.staging),
            Phase::Create => SubmitAction::Create(plan.staging),
            Phase::Copy => SubmitAction::Copy(plan.copy),
            Phase::Add => SubmitAction::Add { name: plan.name, staging: plan.staging },
            Phase::Submit(path) => SubmitAction::Submit { name: plan.name, path: path.clone() },
        }
    }

    /// Takes note of what came of the action that was to be done.
    pub fn report(&mut self, event: SubmitEvent)
        ensures
            final(self)@ == after_event(old(self)@, event@),
    {
        match (self.next_action(), event) {
            (SubmitAction::Examine(_), SubmitEvent::Found(exists)) => {
                self.phase = if exists {
                    Phase::Remove
                } else {
                    Phase::Create
                };
            },
            (SubmitAction::Remove(_), SubmitEvent::Done) => {
                self.phase = Phase::Create;
            },
            (SubmitAction::Create(_), SubmitEvent::Done) => {
                self.phase = Phase::Copy;
            },
            (SubmitAction::Copy(_), SubmitEvent::Done) => {
                self.phase = Phase::Add;
            },
            (SubmitAction::Add { .. }, SubmitEvent::Added(path)) => {
                self.phase = Phase::Submit(path);
            },
            (SubmitAction::Submit { .. }, SubmitEvent::Done) => {
                assert(self.position < self.outputs.len());
                self.position = self.position + 1;
                self.phase = Phase::Examine;
            },
            _ => {},
        }
    }
}

/// Where events, one after the other, leave a submission.
pub open spec fn run(state: SubmissionView, events: Seq<SubmitEventView>) -> SubmissionView
    decreases events.len(),
{
    if events.len() == 0 {
        state
    } else {
        after_event(run(state, events.drop_last()), events.last())
    }
}

/// What was to be done before each of the events.
pub open spec fn actions(state: SubmissionView, events: Seq<SubmitEventView>) -> Seq<
    SubmitActionView,
> {
    Seq::new(events.len(), |i: int| action_of(run(state, events.take(i))))
}

/// What the world answers while one output is submitted.
pub struct Answers {
    /// There was something in the place of the staging directory.
    pub existed: bool,
    /// The base of the path that the store returned.
    pub path: Seq<char>,
}

/// The events in which an output is submitted.
pub open spec fn exchange(answers: Answers) -> Seq<SubmitEventView> {
    let cleared = if answers.existed {
        seq![SubmitEventView::Found(true), SubmitEventView::Done]
    } else {
        seq![SubmitEventView::Found(false)]
    };
    cleared + seq![
        SubmitEventView::Done,
        SubmitEventView::Done,
        SubmitEventView::Added(answers.path),
        SubmitEventView::Done,
    ]
}

/// The actions by which an output is submitted: what stands in the place of its
/// staging directory is removed, the directory is created, the file is copied into
/// it, the directory is added to the store, and the path that was returned for it is
/// submitted.
pub open spec fn actions_for(plan: StagedOutputView, answers: Answers) -> Seq<SubmitActionView> {
    let cleared = if answers.existed {
        seq![SubmitActionView::Examine(plan.staging), SubmitActionView::Remove(plan.staging)]
    } else {
        seq![SubmitActionView::Examine(plan.staging)]
    };
    cleared + seq![
        SubmitActionView::Create(plan.staging),
        SubmitActionView::Copy(plan.copy),
        SubmitActionView::Add { name: plan.name, staging: plan.staging },
        SubmitActionView::Submit { name: plan.name, path: answers.path },
    ]
}

/// The events in which several outputs are submitted.
pub open spec fn exchanges(answers: Seq<Answers>) -> Seq<SubmitEventView>
    decreases answers.len(),
{
    if answers.len() == 0 {
        Seq::empty()
    } else {
        exchanges(answers.drop_last()) + exchange(answers.last())
    }
}

proof fn lemma_run_push(
    state: SubmissionView,
    events: Seq<SubmitEventView>,
    event: SubmitEventView,
)
    ensures
        run(state, events.push(event)) == after_event(run(state, events), event),
        actions(state, events.push(event)) == actions(state, events).push(
            action_of(run(state, events)),
        ),
{
    let more = events.push(event);
    assert(more.drop_last() =~= events);
    assert forall|i: int| 0 <= i < events.len() implies more.take(i) == events.take(i) by {
        assert(more.take(i) =~= events.take(i));
    }
    assert(more.take(events.len() as int) =~= events);
    assert(actions(state, more) =~= actions(state, events).push(action_of(run(state, events))));
}

proof fn lemma_run_add(
    state: SubmissionView,
    first: Seq<SubmitEventView>,
    then: Seq<SubmitEventView>,
)
    ensures
        run(state, first + then) == run(run(state, first), then),
    decreases then.len(),
{
    if then.len() == 0 {
        assert(first + then =~= first);
    } else {
        lemma_run_add(state, first, then.drop_last());
        assert((first + then).drop_last() =~= first + then.drop_last());
    }
}

/// Where each action for an output that can be staged is answered, the output is
/// submitted by exactly the actions that it takes, in their order, and the next one
/// is at hand.
pub proof fn law_output_is_submitted_step_by_step(state: SubmissionView, answers: Answers)
    requires
        0 <= state.position < state.outputs.len(),
        state.phase is Examine,
        staged(state.root, state.outputs[state.position]) is Ok,
    ensures
        actions(state, exchange(answers)) == actions_for(
            staged(state.root, state.outputs[state.position])->Ok_0,
            answers,
        ),
        run(state, exchange(answers)) == (SubmissionView {
            position: state.position + 1,
            ..state
        }),
{
    let none: Seq<SubmitEventView> = Seq::empty();
    let plan = staged(state.root, state.outputs[state.position])->Ok_0;
    let found = SubmitEventView::Found(answers.existed);
    assert(actions(state, none) =~= Seq::empty());
    lemma_run_push(state, none, found);
    let examined = none.push(found);
    assert(actions(state, examined) =~= seq![SubmitActionView::Examine(plan.staging)]);
    if answers.existed {
        lemma_run_push(state, examined, SubmitEventView::Done);
        let cleared = examined.push(SubmitEventView::Done);
        assert(actions(state, cleared) =~= seq![
            SubmitActionView::Examine(plan.staging),
            SubmitActionView::Remove(plan.staging),
        ]);
        assert(cleared =~= seq![found, SubmitEventView::Done]);
        lemma_submitted_once_cleared(state, cleared, answers.path);
    } else {
        assert(examined =~= seq![found]);
        lemma_submitted_once_cleared(state, examined, answers.path);
    }
}

proof fn lemma_submitted_once_cleared(
    state: SubmissionView,
    cleared: Seq<SubmitEventView>,
    path: Seq<char>,
)
    requires
        0 <= state.position < state.outputs.len(),
        state.phase is Examine,
        staged(state.root, state.outputs[state.position]) is Ok,
        run(state, cleared) == (SubmissionView { phase: PhaseView::Create, ..state }),
    ensures
        ({
            let plan = staged(state.root, state.outputs[state.position])->Ok_0;
            let events = cleared + seq![
                SubmitEventView::Done,
                SubmitEventView::Done,
                SubmitEventView::Added(path),
                SubmitEventView::Done,
            ];
            &&& run(state, events) == (SubmissionView { position: state.position + 1, ..state })
            &&& actions(state, events) == actions(state, cleared) + seq![
                SubmitActionView::Create(plan.staging),
                SubmitActionView::Copy(plan.copy),
                SubmitActionView::Add { name: plan.name, staging: plan.staging },
                SubmitActionView::Submit { name: plan.name, path },
            ]
        }),
{
    let plan = staged(state.root, state.outputs[state.position])->Ok_0;
    let done = SubmitEventView::Done;
    let created = cleared.push(done);
    lemma_run_push(state, cleared, done);
    assert(run(state, created) == SubmissionView { phase: PhaseView::Copy, ..state });
    let copied = created.push(done);
    lemma_run_push(state, created, done);
    assert(run(state, copied) == SubmissionView { phase: PhaseView::Add, ..state });
    let added = copied.push(SubmitEventView::Added(path));
    lemma_run_push(state, copied, SubmitEventView::Added(path));
    assert(run(state, added) == SubmissionView { phase: PhaseView::Submit(path), ..state });
    let submitted = added.push(done);
    lemma_run_push(state, added, done);
    assert(submitted =~= cleared + seq![done, done, SubmitEventView::Added(path), done]);
    let before = actions(state, cleared);
    assert(actions(state, submitted) == before.push(
        SubmitActionView::Create(plan.staging),
    ).push(SubmitActionView::Copy(plan.copy)).push(
        SubmitActionView::Add { name: plan.name, staging: plan.staging },
    ).push(SubmitActionView::Submit { name: plan.name, path }));
    assert(actions(state, submitted) =~= before + seq![
        SubmitActionView::Create(plan.staging),
        SubmitActionView::Copy(plan.copy),
        SubmitActionView::Add { name: plan.name, staging: plan.staging },
        SubmitActionView::Submit { name: plan.name, path },
    ]);
}

/// The event at `i` answered this action, for the output at `position`.
pub open spec fn answered(
    start: SubmissionView,
    events: Seq<SubmitEventView>,
    i: int,
    position: int,
    action: SubmitActionView,
    event: SubmitEventView,
) -> bool {
    &&& run(start, events.take(i)).position == position
    &&& action_of(run(start, events.take(i))) == action
    &&& events[i] == event
}

/// For the output at `position`, which is staged like this, the place of the staging
/// directory was found or made empty at `a`, the directory created at `b`, the file
/// copied at `c`, and the directory added to the store at `d`, which returned `path`.
pub open spec fn added_in_turn(
    start: SubmissionView,
    events: Seq<SubmitEventView>,
    position: int,
    plan: StagedOutputView,
    path: Seq<char>,
    a: int,
    b: int,
    c: int,
    d: int,
) -> bool {
    let staging = plan.staging;
    &&& 0 <= a < b < c < d < events.len()
    &&& {
        ||| answered(
            start,
            events,
            a,
            position,
            SubmitActionView::Examine(staging),
            SubmitEventView::Found(false),
        )
        ||| answered(
            start,
            events,
            a,
            position,
            SubmitActionView::Remove(staging),
            SubmitEventView::Done,
        )
    }
    &&& answered(
        start,
        events,
        b,
        position,
        SubmitActionView::Create(staging),
        SubmitEventView::Done,
    )
    &&& answered(
        start,
        events,
        c,
        position,
        SubmitActionView::Copy(plan.copy),
        SubmitEventView::Done,
    )
    &&& answered(
        start,
        events,
        d,
        position,
        SubmitActionView::Add { name: plan.name, staging },
        SubmitEventView::Added(path),
    )
}

/// The output at hand has this name, and its staging directory was added to the store,
/// in turn, and is there at `path`.
pub open spec fn was_returned(
    start: SubmissionView,
    events: Seq<SubmitEventView>,
    name: Seq<char>,
    path: Seq<char>,
) -> bool {
    let end = run(start, events);
    let plan = staged(end.root, end.outputs[end.position]);
    &&& plan is Ok
    &&& name == plan->Ok_0.name
    &&& exists|a: int, b: int, c: int, d: int| #[trigger]
        added_in_turn(start, events, end.position, plan->Ok_0, path, a, b, c, d)
}

/// The last event that changed something, where the output at hand has come beyond its
/// first phase.
proof fn lemma_last_change(start: SubmissionView, events: Seq<SubmitEventView>) -> (at: int)
    requires
        start.phase is Examine,
        !(run(start, events).phase is Examine),
    ensures
        0 <= at < events.len(),
        after_event(run(start, events.take(at)), events[at]) == run(start, events),
        run(start, events.take(at)) != run(start, events),
        run(start, events.take(at)).position == run(start, events).position,
        run(start, events.take(at)).outputs == run(start, events).outputs,
        run(start, events.take(at)).root == run(start, events).root,
    decreases events.len(),
{
    let shorter = events.drop_last();
    assert(shorter =~= events.take(events.len() - 1));
    if run(start, shorter) == run(start, events) {
        let at = lemma_last_change(start, shorter);
        assert(shorter.take(at) =~= events.take(at));
        at
    } else {
        events.len() - 1
    }
}

/// Whatever is reported, and in whatever order: where a path is to be submitted, it is
/// the path that the store returned for that very output, under the name of that
/// output, and the directory that was added had been cleared of leftovers, created and
/// filled before.
pub proof fn law_submitted_path_was_returned(
    start: SubmissionView,
    events: Seq<SubmitEventView>,
)
    requires
        start.phase is Examine,
    ensures
        match action_of(run(start, events)) {
            SubmitActionView::Submit { name, path } => was_returned(start, events, name, path),
            _ => true,
        },
{
    let end = run(start, events);
    if action_of(end) is Submit {
        let plan = staged(end.root, end.outputs[end.position])->Ok_0;
        let path = end.phase->Submit_0;
        let d = lemma_last_change(start, events);
        let before_add = events.take(d);
        let c = lemma_last_change(start, before_add);
        assert(before_add.take(c) =~= events.take(c));
        let before_copy = events.take(c);
        let b = lemma_last_change(start, before_copy);
        assert(before_copy.take(b) =~= events.take(b));
        let before_create = events.take(b);
        let a = lemma_last_change(start, before_create);
        assert(before_create.take(a) =~= events.take(a));
        assert(action_of(end) == SubmitActionView::Submit { name: plan.name, path });
        assert(added_in_turn(start, events, end.position, plan, path, a, b, c, d));
        assert(was_returned(start, events, plan.name, path));
    }
}

/// How each output is staged, or why it is not.
pub open spec fn plans(root: Seq<u8>, outputs: Seq<OutputFileView>) -> Seq<
    Result<StagedOutputView, TaskErrorView>,
> {
    Seq::new(outputs.len(), |i: int| staged(root, outputs[i]))
}

/// What comes of plans that are carried out one after the other, from `position` on:
/// those that are carried out before one is refused, and the refusal, if any.
pub open spec fn carried_out<A, E>(plans: Seq<Result<A, E>>, position: int) -> (Seq<A>, Option<E>)
    decreases plans.len() - position,
{
    if position >= plans.len() {
        (Seq::empty(), None)
    } else {
        match plans[position] {
            Ok(plan) => {
                let (rest, end) = carried_out(plans, position + 1);
                (seq![plan] + rest, end)
            },
            Err(error) => (Seq::empty(), Some(error)),
        }
    }
}

proof fn lemma_carried_out<A, E>(plans: Seq<Result<A, E>>, position: int)
    requires
        0 <= position <= plans.len(),
    ensures
        ({
            let (done, end) = carried_out(plans, position);
            &&& position + done.len() <= plans.len()
            &&& forall|i: int|
                position <= i < position + done.len() ==> #[trigger] plans[i] == Ok::<A, E>(
                    done[i - position],
                )
            &&& match end {
                None => position + done.len() == plans.len(),
                Some(error) => {
                    &&& position + done.len() < plans.len()
                    &&& plans[position + done.len()] == Err::<A, E>(error)
                },
            }
        }),
    decreases plans.len() - position,
{
    if position < plans.len() && plans[position] is Ok {
        lemma_carried_out(plans, position + 1);
        let (done, _) = carried_out(plans, position);
        let (rest, _) = carried_out(plans, position + 1);
        assert(done =~= seq![plans[position]->Ok_0] + rest);
        assert forall|i: int| position <= i < position + done.len() implies #[trigger] plans[i]
            == Ok::<A, E>(done[i - position]) by {
            if i > position {
                assert(done[i - position] == rest[i - (position + 1)]);
            }
        }
    }
}

/// What a submission does at `position`, of which the outputs that can be staged before
/// the first refusal are `done`.
proof fn lemma_plan_at(root: Seq<u8>, outputs: Seq<OutputFileView>, position: int)
    requires
        0 <= position <= carried_out(plans(root, outputs), 0).0.len(),
    ensures
        ({
            let (done, end) = carried_out(plans(root, outputs), 0);
            &&& done.len() <= outputs.len()
            &&& position < done.len() ==> staged(root, outputs[position]) == Ok::<
                StagedOutputView,
                TaskErrorView,
            >(done[position])
            &&& position == done.len() ==> match end {
                None => position == outputs.len(),
                Some(error) => position < outputs.len() && staged(root, outputs[position])
                    == Err::<StagedOutputView, TaskErrorView>(error),
            }
        }),
{
    let all = plans(root, outputs);
    lemma_carried_out(all, 0);
    if position < outputs.len() {
        assert(all[position] == staged(root, outputs[position]));
    }
}

/// Whatever is reported, a submission goes through the outputs in order and never gets
/// beyond the first one that cannot be staged: there it ends with what is wrong with
/// that one, and where there is none such, it ends when all are submitted.
pub proof fn law_submission_stops_at_the_first_refusal(
    root: Seq<u8>,
    outputs: Seq<OutputFileView>,
    events: Seq<SubmitEventView>,
)
    ensures
        ({
            let (done, refusal) = carried_out(plans(root, outputs), 0);
            let end = run(fresh(root, outputs), events);
            &&& end.root == root && end.outputs == outputs
            &&& 0 <= end.position <= done.len() <= outputs.len()
            &&& end.position < done.len() ==> action_of(end) == action_in(
                end.phase,
                done[end.position],
            )
            &&& end.position == done.len() ==> end.phase is Examine && action_of(end)
                == match refusal {
                None => SubmitActionView::Finish,
                Some(error) => SubmitActionView::Refuse(error),
            }
            &&& refusal is None <==> done.len() == outputs.len()
        }),
    decreases events.len(),
{
    let (done, refusal) = carried_out(plans(root, outputs), 0);
    let end = run(fresh(root, outputs), events);
    lemma_plan_at(root, outputs, done.len() as int);
    if events.len() > 0 {
        law_submission_stops_at_the_first_refusal(root, outputs, events.drop_last());
        let before = run(fresh(root, outputs), events.drop_last());
        lemma_plan_at(root, outputs, before.position);
    }
    lemma_plan_at(root, outputs, end.position);
}

/// Where every action is answered, each output before the first one that cannot be
/// staged is submitted, and then the submission ends.
pub proof fn law_submission_reaches_its_end(
    root: Seq<u8>,
    outputs: Seq<OutputFileView>,
    answers: Seq<Answers>,
)
    requires
        answers.len() <= carried_out(plans(root, outputs), 0).0.len(),
    ensures
        ({
            let (done, refusal) = carried_out(plans(root, outputs), 0);
            let end = run(fresh(root, outputs), exchanges(answers));
            &&& end == (SubmissionView {
                position: answers.len() as int,
                ..fresh(root, outputs)
            })
            &&& answers.len() == done.len() ==> action_of(end) == match refusal {
                None => SubmitActionView::Finish,
                Some(error) => SubmitActionView::Refuse(error),
            }
        }),
    decreases answers.len(),
{
    lemma_plan_at(root, outputs, answers.len() as int);
    if answers.len() > 0 {
        let shorter = answers.drop_last();
        law_submission_reaches_its_end(root, outputs, shorter);
        lemma_plan_at(root, outputs, shorter.len() as int);
        let before = run(fresh(root, outputs), exchanges(shorter));
        law_output_is_submitted_step_by_step(before, answers.last());
        lemma_run_add(fresh(root, outputs), exchanges(shorter), exchange(answers.last()));
    }
}

/// The model of an action has what the action has.
pub proof fn law_model_of_an_action(action: SubmitAction)
    ensures
        match action {
            SubmitAction::Examine(staging) => action@ == SubmitActionView::Examine(staging@),
            SubmitAction::Remove(staging) => action@ == SubmitActionView::Remove(staging@),
            SubmitAction::Create(staging) => action@ == SubmitActionView::Create(staging@),
            SubmitAction::Copy(copy) => action@ == SubmitActionView::Copy(copy@),
            SubmitAction::Add { name, staging } => action@ == (SubmitActionView::Add {
                name: name@,
                staging: staging@,
            }),
            SubmitAction::Submit { name, path } => action@ == (SubmitActionView::Submit {
                name: name@,
                path: path@,
            }),
            SubmitAction::Refuse(error) => action@ == SubmitActionView::Refuse(error@),
            SubmitAction::Finish => action@ == SubmitActionView::Finish,
        },
{
}

/// The model of an event has what the event has.
pub proof fn law_model_of_an_event(event: SubmitEvent)
    ensures
        match event {
            SubmitEvent::Found(exists) => event@ == SubmitEventView::Found(exists),
            SubmitEvent::Done => event@ == SubmitEventView::Done,
            SubmitEvent::Added(path) => event@ == SubmitEventView::Added(path@),
        },
{
}

/// Outputs are modelled one by one, and a submission starts before the first of them.
pub proof fn law_start_of_a_submission(
    root: Seq<u8>,
    files: Seq<OutputFile>,
    outputs: Seq<OutputFileView>,
    i: int,
)
    ensures
        output_views(files).len() == files.len(),
        0 <= i < files.len() ==> output_views(files)[i] == files[i]@,
        fresh(root, outputs).root == root,
        fresh(root, outputs).outputs == outputs,
        fresh(root, outputs).position == 0,
        fresh(root, outputs).phase is Examine,
{
}

/// What is to be done, by how far the output at hand has come: each action is about the
/// staging directory, the file and the name of that output, and what is submitted is the
/// path that was taken note of.
pub proof fn law_actions_by_phase(state: SubmissionView)
    ensures
        state.position >= state.outputs.len() ==> action_of(state) == SubmitActionView::Finish,
        state.position < state.outputs.len() ==> match staged(
            state.root,
            state.outputs[state.position],
        ) {
            Err(error) => action_of(state) == SubmitActionView::Refuse(error),
            Ok(plan) => match state.phase {
                PhaseView::Examine => action_of(state) == SubmitActionView::Examine(plan.staging),
                PhaseView::Remove => action_of(state) == SubmitActionView::Remove(plan.staging),
                PhaseView::Create => action_of(state) == SubmitActionView::Create(plan.staging),
                PhaseView::Copy => action_of(state) == SubmitActionView::Copy(plan.copy),
                PhaseView::Add => action_of(state) == (SubmitActionView::Add {
                    name: plan.name,
                    staging: plan.staging,
                }),
                PhaseView::Submit(path) => action_of(state) == (SubmitActionView::Submit {
                    name: plan.name,
                    path,
                }),
            },
        },
{
}

/// No event changes which outputs there are or where they are staged. The position moves
/// by one, and only when what was to be submitted is; nothing moves after a refusal or
/// after the end.
pub proof fn law_what_an_event_may_change(state: SubmissionView, event: SubmitEventView)
    ensures
        after_event(state, event).root == state.root,
        after_event(state, event).outputs == state.outputs,
        after_event(state, event).position == if action_of(state) is Submit && event is Done {
            state.position + 1
        } else {
            state.position
        },
        action_of(state) is Refuse || action_of(state) is Finish ==> after_event(state, event)
            == state,
{
}

/// How far an output comes with each answer, where it can be staged; an event that is no
/// answer leaves it where it is.
pub proof fn law_phases_by_event(state: SubmissionView, event: SubmitEventView)
    requires
        0 <= state.position < state.outputs.len(),
        staged(state.root, state.outputs[state.position]) is Ok,
    ensures
        match (state.phase, event) {
            (PhaseView::Examine, SubmitEventView::Found(true)) => after_event(
                state,
                event,
            ).phase is Remove,
            (PhaseView::Examine, SubmitEventView::Found(false)) => after_event(
                state,
                event,
            ).phase is Create,
            (PhaseView::Remove, SubmitEventView::Done) => after_event(state, event).phase is Create,
            (PhaseView::Create, SubmitEventView::Done) => after_event(state, event).phase is Copy,
            (PhaseView::Copy, SubmitEventView::Done) => after_event(state, event).phase is Add,
            (PhaseView::Add, SubmitEventView::Added(path)) => after_event(state, event).phase
                == PhaseView::Submit(path),
            (PhaseView::Submit(_), SubmitEventView::Done) => after_event(
                state,
                event,
            ).phase is Examine,
            _ => after_event(state, event) == state,
        },
{
}

/// Events are taken in one after the other, and each answers what was to be done when it
/// came.
pub proof fn law_events_one_after_the_other(
    state: SubmissionView,
    events: Seq<SubmitEventView>,
    event: SubmitEventView,
)
    ensures
        run(state, Seq::empty()) == state,
        run(state, events.push(event)) == after_event(run(state, events), event),
        actions(state, Seq::empty()) == Seq::<SubmitActionView>::empty(),
        actions(state, events.push(event)) == actions(state, events).push(
            action_of(run(state, events)),
        ),
{
    lemma_run_push(state, events, event);
    assert(actions(state, Seq::empty()) =~= Seq::empty());
}

/// Whatever is reported: where a path is to be submitted under a name, an event before
/// returned that very path, in answer to adding the staging directory of that output under
/// that name.
pub proof fn law_path_comes_from_the_store(start: SubmissionView, events: Seq<SubmitEventView>)
    requires
        start.phase is Examine,
    ensures
        match action_of(run(start, events)) {
            SubmitActionView::Submit { name, path } => exists|d: int|
                0 <= d < events.len() && (#[trigger] events[d]) == SubmitEventView::Added(path)
                    && run(start, events.take(d)).position == run(start, events).position
                    && action_of(run(start, events.take(d))) == (SubmitActionView::Add {
                    name,
                    staging: staged(
                        start.root,
                        start.outputs[run(start, events).position],
                    )->Ok_0.staging,
                }),
            _ => true,
        },
{
    let end = run(start, events);
    lemma_outputs_stay(start, events);
    if action_of(end) is Submit {
        let d = lemma_last_change(start, events);
        lemma_outputs_stay(start, events.take(d));
        assert(events[d] == SubmitEventView::Added(end.phase->Submit_0));
    }
}

proof fn lemma_outputs_stay(start: SubmissionView, events: Seq<SubmitEventView>)
    ensures
        run(start, events).root == start.root,
        run(start, events).outputs == start.outputs,
    decreases events.len(),
{
    if events.len() > 0 {
        lemma_outputs_stay(start, events.drop_last());
    }
}

} // verus!
