//! The reconciliation engine: a work stack of steps, advanced by the
//! outcome of each task that the engine asks its driver to perform.
//!
//! The engine never touches the local tree or the remote store itself. It
//! hands out one task at a time and is told how the task ended. A failure
//! is caught by the nearest retried step under way, which is started again
//! while its budget lasts; a failure that nothing catches ends the run.

use crate::entry::Folder;
use crate::error::Error;
use crate::folder::sync::{local_views, once, LocalEntry};
use crate::folder::sync;
use crate::folder::upload::{by_checksum, checksum_decision, Decision};
use crate::folder::upload;
use crate::retry::Retry;
use crate::task::{
    error_view, error_views, frame_views, step_views, Action, ActionView, Diagnostic,
    DiagnosticView, ErrorView, Event, Frame, FrameView, Step, StepView, Task, TaskView,
};
use vstd::prelude::*;

verus! {

/// What a run does: reconcile in both directions, or upload only.
#[derive(Debug, PartialEq, Eq)]
pub enum Mode {
    Sync(sync::Command),
    Upload(upload::Command),
}

impl Mode {
    /// The retry budget of the run.
    pub open spec fn budget(self) -> nat {
        match self {
            Mode::Sync(command) => command.retries as nat,
            Mode::Upload(command) => command.retries as nat,
        }
    }

    /// The local directory of the run.
    pub open spec fn root(self) -> Seq<char> {
        match self {
            Mode::Sync(command) => command.path@,
            Mode::Upload(command) => command.path@,
        }
    }

    /// The step that a run on the remote folder `folder_id` begins with:
    /// the reconciliation of the root level, retried as a whole when
    /// uploading only.
    pub open spec fn first_step(self, folder_id: u64) -> StepView {
        StepView {
            task: TaskView::Sync { folder_id, path: self.root() },
            retried: self is Upload,
        }
    }

    /// The steps of one level, given the remote folder with its contents
    /// and the entries of the local directory `path`.
    pub open spec fn plan(self, folder: Folder, entries: Seq<LocalEntry>, path: Seq<char>) -> Seq<
        StepView,
    > {
        match self {
            Mode::Sync(command) => command.folder_steps(
                folder.listing(),
                folder.folder_id,
                local_views(entries),
                path,
            ),
            Mode::Upload(command) => command.folder_steps(local_views(entries), folder@),
        }
    }

    /// The retry budget of the run.
    pub fn retries(&self) -> (budget: usize)
        ensures
            budget == self.budget(),
    {
        match self {
            Mode::Sync(command) => command.retries as usize,
            Mode::Upload(command) => command.retries,
        }
    }
}

/// The engine of one run.
#[derive(Debug, PartialEq, Eq)]
pub struct Engine {
    /// What the run does.
    pub mode: Mode,
    /// The work still to do; the last frame is the next.
    pub stack: Vec<Frame>,
    /// The task that the driver was asked to perform.
    pub current: Option<Task>,
}

/// The state of an engine as a value of the model: the work left and the
/// task asked for. The mode is left out: it never changes, which `new` and
/// `step` state by a clause of their own.
pub struct EngineView {
    pub stack: Seq<FrameView>,
    pub current: Option<TaskView>,
}

impl View for Engine {
    type V = EngineView;

    open spec fn view(&self) -> EngineView {
        EngineView {
            stack: frame_views(self.stack@),
            current: match self.current {
                Some(task) => Some(task@),
                None => None,
            },
        }
    }
}

/// The state of an engine that has nothing to do and waits for nothing.
pub open spec fn idle() -> EngineView {
    EngineView { stack: Seq::empty(), current: None }
}

/// The stack after the steps of `plan` were put on it, the last step first,
/// so that the first step of the plan is the next.
pub open spec fn pushed(stack: Seq<FrameView>, plan: Seq<StepView>) -> Seq<FrameView>
    decreases plan.len(),
{
    if plan.len() == 0 {
        stack
    } else {
        pushed(stack.push(FrameView::Todo(plan.last())), plan.drop_last())
    }
}

/// The next task of a stack and the state in which the engine waits for its
/// outcome. Marks of retried steps on top have been completed and are
/// dropped; a retried step leaves its mark, with a full budget, before it
/// is begun.
pub open spec fn advance(budget: nat, stack: Seq<FrameView>) -> (EngineView, ActionView)
    decreases stack.len(),
{
    if stack.len() == 0 {
        (idle(), ActionView::Finished)
    } else {
        match stack.last() {
            FrameView::Scope { .. } => advance(budget, stack.drop_last()),
            FrameView::Todo(step) => {
                let rest = if step.retried {
                    stack.drop_last().push(
                        FrameView::Scope {
                            remaining: budget,
                            errors: Seq::empty(),
                            restart: step.task,
                        },
                    )
                } else {
                    stack.drop_last()
                };
                (
                    EngineView { stack: rest, current: Some(step.task) },
                    ActionView::Perform(step.task),
                )
            },
        }
    }
}

/// The stack after a failure, and the failure if nothing caught it. The
/// work above the nearest mark of a retried step is given up. If the budget
/// of that step lasts, the failure is recorded and the step is put back on
/// the stack; if not, the step fails with all its failures, and that
/// failure goes on to the next mark.
pub open spec fn unwind(stack: Seq<FrameView>, err: ErrorView) -> (Seq<FrameView>, Option<ErrorView>)
    decreases stack.len(),
{
    if stack.len() == 0 {
        (stack, Some(err))
    } else {
        match stack.last() {
            FrameView::Todo(_) => unwind(stack.drop_last(), err),
            FrameView::Scope { remaining, errors, restart } => if remaining > 0 {
                (
                    stack.drop_last().push(
                        FrameView::Scope {
                            remaining: (remaining - 1) as nat,
                            errors: errors.push(err),
                            restart,
                        },
                    ).push(FrameView::Todo(once(restart))),
                    None,
                )
            } else {
                unwind(stack.drop_last(), ErrorView::Retry(errors.push(err)))
            },
        }
    }
}

/// What the outcome of a task means for the run.
pub enum Reaction {
    /// The run goes on with this stack.
    Proceed(Seq<FrameView>),
    /// The task failed.
    Fail(ErrorView),
    /// The outcome does not answer the task: the run is abandoned.
    Abort,
}

/// What `event` means as the outcome of the task `current`, with the work
/// `stack` still to do.
pub open spec fn react(
    mode: Mode,
    current: Option<TaskView>,
    stack: Seq<FrameView>,
    event: Event,
) -> Reaction {
    match (current, event) {
        (None, Event::Start) => Reaction::Proceed(stack),
        (None, _) => Reaction::Abort,
        (Some(_), Event::Start) => Reaction::Abort,
        (Some(TaskView::RemoveLocalFile { lenient: true, .. }), Event::Failed(_)) => {
            Reaction::Proceed(stack)
        },
        (Some(TaskView::RemoveLocalDir { lenient: true, .. }), Event::Failed(_)) => {
            Reaction::Proceed(stack)
        },
        (Some(_), Event::Failed(err)) => Reaction::Fail(error_view(err)),
        (Some(TaskView::Sync { folder_id, path }), Event::Listings(folder, entries)) => {
            Reaction::Proceed(pushed(stack, mode.plan(folder, entries@, path)))
        },
        (
            Some(TaskView::CreateRemoteFolder { name, parent_id, path, retried }),
            Event::FolderCreated(folder_id),
        ) => Reaction::Proceed(
            stack.push(
                FrameView::Todo(StepView { task: TaskView::Sync { folder_id, path }, retried }),
            ),
        ),
        (Some(TaskView::LocalChecksum { file_id, upload }), Event::LocalChecksum(Ok(local))) => {
            Reaction::Proceed(
                stack.push(
                    FrameView::Todo(
                        once(TaskView::RemoteChecksum { file_id, local: local@, upload }),
                    ),
                ),
            )
        },
        (
            Some(TaskView::LocalChecksum { file_id, upload }),
            Event::LocalChecksum(Err(reason)),
        ) => Reaction::Proceed(
            stack.push(
                FrameView::Todo(
                    once(
                        TaskView::Report(
                            DiagnosticView::ChecksumUnavailable {
                                path: upload.path,
                                reason: reason@,
                            },
                        ),
                    ),
                ),
            ),
        ),
        (
            Some(TaskView::RemoteChecksum { file_id, local, upload }),
            Event::RemoteChecksum(remote),
        ) => if local != remote@ {
            Reaction::Proceed(stack.push(FrameView::Todo(once(TaskView::Upload(upload)))))
        } else {
            Reaction::Proceed(stack)
        },
        (Some(TaskView::Download { .. }), Event::Done) => Reaction::Proceed(stack),
        (Some(TaskView::Upload(upload)), Event::Done) => if upload.remove_after {
            Reaction::Proceed(
                stack.push(
                    FrameView::Todo(
                        once(TaskView::RemoveLocalFile { path: upload.path, lenient: true }),
                    ),
                ),
            )
        } else {
            Reaction::Proceed(stack)
        },
        (Some(TaskView::CreateLocalDir { .. }), Event::Done) => Reaction::Proceed(stack),
        (Some(TaskView::DeleteRemoteFile { .. }), Event::Done) => Reaction::Proceed(stack),
        (Some(TaskView::DeleteRemoteFolder { .. }), Event::Done) => Reaction::Proceed(stack),
        (Some(TaskView::RemoveLocalFile { .. }), Event::Done) => Reaction::Proceed(stack),
        (Some(TaskView::RemoveLocalDir { .. }), Event::Done) => Reaction::Proceed(stack),
        (Some(TaskView::Report(_)), Event::Done) => Reaction::Proceed(stack),
        _ => Reaction::Abort,
    }
}

/// One transition of the engine: the state after `event` and what the
/// driver is asked to do next.
pub open spec fn next(mode: Mode, state: EngineView, event: Event) -> (EngineView, ActionView) {
    match react(mode, state.current, state.stack, event) {
        Reaction::Proceed(stack) => advance(mode.budget(), stack),
        Reaction::Fail(err) => match unwind(state.stack, err) {
            (stack, None) => advance(mode.budget(), stack),
            (_, Some(failure)) => (idle(), ActionView::Failed(failure)),
        },
        Reaction::Abort => (idle(), ActionView::Failed(ErrorView::Single(Error::Protocol))),
    }
}

/// The model of the task that an engine waits for.
pub open spec fn task_view(task: Option<Task>) -> Option<TaskView> {
    match task {
        Some(task) => Some(task@),
        None => None,
    }
}

/// The model of a failure that may be absent.
pub open spec fn failure_view(failure: Option<Error>) -> Option<ErrorView> {
    match failure {
        Some(err) => Some(error_view(err)),
        None => None,
    }
}

/// Puts a frame on the stack.
fn push_frame(stack: &mut Vec<Frame>, frame: Frame)
    ensures
        frame_views(final(stack)@) == frame_views(old(stack)@).push(frame@),
{
    stack.push(frame);
    assert(frame_views(stack@) =~= frame_views(old(stack)@).push(frame@));
}

/// Takes the last frame off the stack, if there is one.
fn pop_frame(stack: &mut Vec<Frame>) -> (top: Option<Frame>)
    ensures
        match top {
            Some(frame) => old(stack)@.len() == final(stack)@.len() + 1 && frame@ == frame_views(
                old(stack)@,
            ).last() && frame_views(final(stack)@) == frame_views(old(stack)@).drop_last(),
            None => old(stack)@.len() == 0 && final(stack)@ == old(stack)@,
        },
{
    let top = stack.pop();
    assert(old(stack)@.len() > 0 ==> frame_views(stack@) =~= frame_views(old(stack)@).drop_last());
    top
}

/// Puts the steps of a plan on the stack, the last step first.
fn push_plan(stack: &mut Vec<Frame>, plan: Vec<Step>)
    ensures
        frame_views(final(stack)@) == pushed(frame_views(old(stack)@), step_views(plan@)),
{
    let mut rest = plan;
    loop
        invariant
            pushed(frame_views(stack@), step_views(rest@)) == pushed(
                frame_views(old(stack)@),
                step_views(plan@),
            ),
        decreases rest@.len(),
    {
        let ghost before = rest@;
        match rest.pop() {
            None => {
                assert(step_views(rest@) =~= Seq::<StepView>::empty());
                return ;
            },
            Some(step) => {
                assert(step_views(before).last() == step@);
                assert(step_views(before).drop_last() =~= step_views(rest@));
                push_frame(stack, Frame::Todo(step));
            },
        }
    }
}

/// Picks the next task from the stack.
fn advance_stack(budget: usize, stack: &mut Vec<Frame>) -> (r: (Option<Task>, Action))
    ensures
        (EngineView { stack: frame_views(final(stack)@), current: task_view(r.0) }, r.1@)
            == advance(budget as nat, frame_views(old(stack)@)),
{
    loop
        invariant
            advance(budget as nat, frame_views(stack@)) == advance(
                budget as nat,
                frame_views(old(stack)@),
            ),
        decreases stack@.len(),
    {
        match pop_frame(stack) {
            None => {
                assert(frame_views(stack@) =~= Seq::<FrameView>::empty());
                return (None, Action::Finished);
            },
            Some(Frame::Scope { retry: _, restart: _ }) => {},
            Some(Frame::Todo(step)) => {
                let Step { task, retried } = step;
                if retried {
                    let retry = Retry::new(budget);
                    assert(error_views(retry.errors@) =~= Seq::<ErrorView>::empty());
                    push_frame(stack, Frame::Scope { retry, restart: task.duplicate() });
                }
                let action = Action::Perform(task.duplicate());
                return (Some(task), action);
            },
        }
    }
}

/// Gives up the work above the nearest retried step under way and starts
/// that step again, or reports the failure that nothing caught.
fn unwind_stack(stack: &mut Vec<Frame>, err: Error) -> (failure: Option<Error>)
    ensures
        (frame_views(final(stack)@), failure_view(failure)) == unwind(
            frame_views(old(stack)@),
            error_view(err),
        ),
{
    let mut pending = err;
    loop
        invariant
            unwind(frame_views(stack@), error_view(pending)) == unwind(
                frame_views(old(stack)@),
                error_view(err),
            ),
        decreases stack@.len(),
    {
        match pop_frame(stack) {
            None => {
                assert(frame_views(stack@) =~= Seq::<FrameView>::empty());
                return Some(pending);
            },
            Some(Frame::Todo(_)) => {},
            Some(Frame::Scope { retry, restart }) => {
                let mut retry = retry;
                let ghost before = retry.errors@;
                let ghost failure = pending;
                let again = retry.fail(pending);
                proof {
                    assert(retry.errors@.drop_last() =~= before);
                    assert(error_views(retry.errors@) == error_views(before).push(
                        error_view(failure),
                    ));
                }
                if again {
                    let task = restart.duplicate();
                    push_frame(stack, Frame::Scope { retry, restart });
                    push_frame(stack, Frame::Todo(Step { task, retried: false }));
                    return None;
                } else {
                    pending = retry.into_error();
                }
            },
        }
    }
}

/// How the engine goes on after an outcome.
enum Outcome {
    Proceed,
    Fail(Error),
    Abort,
}

/// Takes in the outcome `event` of the task `current`.
fn react_to(mode: &Mode, current: Option<Task>, stack: &mut Vec<Frame>, event: Event) -> (outcome:
    Outcome)
    ensures
        match react(*mode, task_view(current), frame_views(old(stack)@), event) {
            Reaction::Proceed(after) => outcome is Proceed && frame_views(final(stack)@) == after,
            Reaction::Fail(err) => outcome is Fail && error_view(outcome->Fail_0) == err
                && frame_views(final(stack)@) == frame_views(old(stack)@),
            Reaction::Abort => outcome is Abort,
        },
{
    match current {
        None => match event {
            Event::Start => Outcome::Proceed,
            _ => Outcome::Abort,
        },
        Some(task) => match event {
            Event::Start => Outcome::Abort,
            Event::Failed(err) => {
                let lenient = match &task {
                    Task::RemoveLocalFile { path: _, lenient } => *lenient,
                    Task::RemoveLocalDir { path: _, lenient, recursive: _ } => *lenient,
                    _ => false,
                };
                if lenient {
                    Outcome::Proceed
                } else {
                    Outcome::Fail(err)
                }
            },
            Event::Listings(folder, entries) => match task {
                Task::Sync { folder_id: _, path } => {
                    let plan = match mode {
                        Mode::Sync(command) => command.sync_folder(&folder, &entries, &path),
                        Mode::Upload(command) => command.handle_folder(&entries, &folder),
                    };
                    push_plan(stack, plan);
                    Outcome::Proceed
                },
                _ => Outcome::Abort,
            },
            Event::FolderCreated(folder_id) => match task {
                Task::CreateRemoteFolder { name: _, parent_id: _, path, retried } => {
                    push_frame(
                        stack,
                        Frame::Todo(Step { task: Task::Sync { folder_id, path }, retried }),
                    );
                    Outcome::Proceed
                },
                _ => Outcome::Abort,
            },
            Event::LocalChecksum(result) => match task {
                Task::LocalChecksum { file_id, upload } => {
                    let follow = match result {
                        Ok(local) => Task::RemoteChecksum { file_id, local, upload },
                        Err(reason) => Task::Report(
                            Diagnostic::ChecksumUnavailable { path: upload.path, reason },
                        ),
                    };
                    push_frame(stack, Frame::Todo(Step { task: follow, retried: false }));
                    Outcome::Proceed
                },
                _ => Outcome::Abort,
            },
            Event::RemoteChecksum(remote) => match task {
                Task::RemoteChecksum { file_id, local, upload } => {
                    let known: Result<String, String> = Ok(local);
                    match checksum_decision(Some(file_id), Some(&known), Some(&remote)) {
                        Decision::Upload => {
                            push_frame(
                                stack,
                                Frame::Todo(Step { task: Task::Upload(upload), retried: false }),
                            );
                        },
                        _ => {},
                    }
                    Outcome::Proceed
                },
                _ => Outcome::Abort,
            },
            Event::Done => match task {
                Task::Download { .. } => Outcome::Proceed,
                Task::Upload(upload) => {
                    if upload.remove_after {
                        push_frame(
                            stack,
                            Frame::Todo(
                                Step {
                                    task: Task::RemoveLocalFile {
                                        path: upload.path,
                                        lenient: true,
                                    },
                                    retried: false,
                                },
                            ),
                        );
                    }
                    Outcome::Proceed
                },
                Task::CreateLocalDir { .. } => Outcome::Proceed,
                Task::DeleteRemoteFile { .. } => Outcome::Proceed,
                Task::DeleteRemoteFolder { .. } => Outcome::Proceed,
                Task::RemoveLocalFile { .. } => Outcome::Proceed,
                Task::RemoveLocalDir { .. } => Outcome::Proceed,
                Task::Report(_) => Outcome::Proceed,
                _ => Outcome::Abort,
            },
        },
    }
}

impl Engine {
    /// The engine of a run of `mode` on the remote folder `folder_id`. It
    /// has one step to do, the reconciliation of the root level, and waits
    /// to be started.
    pub fn new(mode: Mode, folder_id: u64) -> (engine: Engine)
        ensures
            engine.mode == mode,
            engine@ == (EngineView {
                stack: seq![FrameView::Todo(mode.first_step(folder_id))],
                current: None,
            }),
    {
        let step = match &mode {
            Mode::Sync(command) => Step {
                task: Task::Sync { folder_id, path: command.path.clone() },
                retried: false,
            },
            Mode::Upload(command) => upload::Command::handle_folder_with_retry(
                &command.path,
                folder_id,
            ),
        };
        let mut stack: Vec<Frame> = Vec::new();
        stack.push(Frame::Todo(step));
        assert(frame_views(stack@) =~= seq![FrameView::Todo(mode.first_step(folder_id))]);
        Engine { mode, stack, current: None }
    }

    /// Whether the engine has nothing to do and waits for nothing: the run
    /// is over, or was never given work.
    pub fn is_idle(&self) -> (at_rest: bool)
        ensures
            at_rest == (self@ == idle()),
    {
        let at_rest = self.stack.len() == 0 && self.current.is_none();
        assert(at_rest ==> frame_views(self.stack@) =~= Seq::<FrameView>::empty());
        assert(self.stack@.len() > 0 ==> frame_views(self.stack@).len() > 0);
        at_rest
    }

    /// Takes in the outcome of the task that was asked for and says what to
    /// do next. The first call of a run takes `Event::Start`.
    ///
    /// After `Action::Finished` or `Action::Failed` the run is over and the
    /// engine is idle. An outcome that does not answer the task that was
    /// asked for ends the run with `Error::Protocol`.
    pub fn step(&mut self, event: Event) -> (action: Action)
        ensures
            final(self).mode == old(self).mode,
            (final(self)@, action@) == next(old(self).mode, old(self)@, event),
    {
        let budget = self.mode.retries();
        let current = self.current.take();
        match react_to(&self.mode, current, &mut self.stack, event) {
            Outcome::Proceed => {
                let (task, action) = advance_stack(budget, &mut self.stack);
                self.current = task;
                action
            },
            Outcome::Fail(err) => {
                match unwind_stack(&mut self.stack, err) {
                    None => {
                        let (task, action) = advance_stack(budget, &mut self.stack);
                        self.current = task;
                        action
                    },
                    Some(failure) => {
                        self.stack.clear();
                        assert(frame_views(self.stack@) =~= Seq::<FrameView>::empty());
                        Action::Failed(failure)
                    },
                }
            },
            Outcome::Abort => {
                self.stack.clear();
                assert(frame_views(self.stack@) =~= Seq::<FrameView>::empty());
                Action::Failed(Error::Protocol)
            },
        }
    }
}

/// Whether no retried step is under way in `stack`.
pub open spec fn no_scope(stack: Seq<FrameView>) -> bool {
    forall|i: int| 0 <= i < stack.len() ==> (#[trigger] stack[i]) is Todo
}

/// The state in which the retried task `task` is under way above the work
/// `rest`, with `remaining` attempts left after a failure and the failures
/// `errors` behind it.
pub open spec fn retrying(
    rest: Seq<FrameView>,
    task: TaskView,
    remaining: nat,
    errors: Seq<ErrorView>,
) -> EngineView {
    EngineView {
        stack: rest.push(FrameView::Scope { remaining, errors, restart: task }),
        current: Some(task),
    }
}

/// The engine after the task under way has failed with each of `errors` in
/// turn, and what it asked for last.
pub open spec fn after_failures(mode: Mode, state: EngineView, errors: Seq<Error>) -> (
    EngineView,
    ActionView,
)
    decreases errors.len(),
{
    if errors.len() == 0 {
        (
            state,
            match state.current {
                Some(task) => ActionView::Perform(task),
                None => ActionView::Finished,
            },
        )
    } else {
        next(mode, after_failures(mode, state, errors.drop_last()).0, Event::Failed(errors.last()))
    }
}

/// A failure that no retried step catches ends the run with that failure.
pub proof fn lemma_uncaught_failure(stack: Seq<FrameView>, err: ErrorView)
    requires
        no_scope(stack),
    ensures
        unwind(stack, err).1 == Some(err),
    decreases stack.len(),
{
    if stack.len() > 0 {
        assert(stack.last() is Todo);
        assert forall|i: int| 0 <= i < stack.drop_last().len() implies (
        #[trigger] stack.drop_last()[i]) is Todo by {
            assert(stack[i] is Todo);
        }
        lemma_uncaught_failure(stack.drop_last(), err);
    }
}

/// When a task fails that is not retried and stands in no retried step,
/// the run is over: the engine reports the failure and is idle, whatever
/// work was left.
pub proof fn lemma_failure_aborts_run(mode: Mode, state: EngineView, err: Error)
    requires
        state.current is Some,
        !state.current->0.is_lenient(),
        no_scope(state.stack),
    ensures
        next(mode, state, Event::Failed(err)) == (idle(), ActionView::Failed(error_view(err))),
{
    lemma_uncaught_failure(state.stack, error_view(err));
}

/// When a retried task fails while its budget lasts, the failure is
/// recorded and the same task is asked for again; the work below it is
/// untouched.
pub proof fn lemma_failure_within_budget(
    mode: Mode,
    rest: Seq<FrameView>,
    task: TaskView,
    remaining: nat,
    errors: Seq<ErrorView>,
    err: Error,
)
    requires
        !task.is_lenient(),
        remaining > 0,
    ensures
        next(mode, retrying(rest, task, remaining, errors), Event::Failed(err)) == (
            retrying(rest, task, (remaining - 1) as nat, errors.push(error_view(err))),
            ActionView::Perform(task),
        ),
{
    let state = retrying(rest, task, remaining, errors);
    let scope = FrameView::Scope {
        remaining: (remaining - 1) as nat,
        errors: errors.push(error_view(err)),
        restart: task,
    };
    assert(state.stack.drop_last() =~= rest);
    let after = rest.push(scope).push(FrameView::Todo(once(task)));
    assert(unwind(state.stack, error_view(err)) == (after, None::<ErrorView>));
    assert(after.drop_last() =~= rest.push(scope));
}

/// When a retried task fails with its budget used up, it is not asked for
/// again: it fails with all its failures, the last one included, and that
/// failure goes to whatever stands below.
pub proof fn lemma_failure_beyond_budget(
    mode: Mode,
    rest: Seq<FrameView>,
    task: TaskView,
    errors: Seq<ErrorView>,
    err: Error,
)
    requires
        !task.is_lenient(),
        no_scope(rest),
    ensures
        next(mode, retrying(rest, task, 0, errors), Event::Failed(err)) == (
            idle(),
            ActionView::Failed(ErrorView::Retry(errors.push(error_view(err)))),
        ),
{
    let state = retrying(rest, task, 0, errors);
    assert(state.stack.drop_last() =~= rest);
    lemma_uncaught_failure(rest, ErrorView::Retry(errors.push(error_view(err))));
}

/// A retried task that fails on every attempt is attempted once and then
/// once more for each retry of the budget: after each of the first `budget`
/// failures the engine asks for the task again, and after one more failure
/// the run ends with the failures of all these attempts.
pub proof fn lemma_retried_task_attempts(
    mode: Mode,
    rest: Seq<FrameView>,
    task: TaskView,
    errors: Seq<Error>,
)
    requires
        !task.is_lenient(),
        no_scope(rest),
        errors.len() == mode.budget() + 1,
    ensures
        forall|k: int|
            0 <= k <= mode.budget() ==> #[trigger] after_failures(
                mode,
                retrying(rest, task, mode.budget(), Seq::empty()),
                errors.take(k),
            ) == (
                retrying(rest, task, (mode.budget() - k) as nat, error_views(errors.take(k))),
                ActionView::Perform(task),
            ),
        after_failures(mode, retrying(rest, task, mode.budget(), Seq::empty()), errors) == (
            idle(),
            ActionView::Failed(ErrorView::Retry(error_views(errors))),
        ),
{
    let start = retrying(rest, task, mode.budget(), Seq::empty());
    assert forall|k: int| 0 <= k <= mode.budget() implies #[trigger] after_failures(
        mode,
        start,
        errors.take(k),
    ) == (
        retrying(rest, task, (mode.budget() - k) as nat, error_views(errors.take(k))),
        ActionView::Perform(task),
    ) by {
        lemma_attempts_within_budget(mode, rest, task, errors, k);
    }
    let n = mode.budget() as int;
    lemma_attempts_within_budget(mode, rest, task, errors, n);
    assert(errors.drop_last() =~= errors.take(n));
    lemma_failure_beyond_budget(mode, rest, task, error_views(errors.take(n)), errors.last());
}

/// The first `k` failures of a retried task, within its budget.
proof fn lemma_attempts_within_budget(
    mode: Mode,
    rest: Seq<FrameView>,
    task: TaskView,
    errors: Seq<Error>,
    k: int,
)
    requires
        !task.is_lenient(),
        0 <= k <= mode.budget(),
        k <= errors.len(),
    ensures
        after_failures(mode, retrying(rest, task, mode.budget(), Seq::empty()), errors.take(k))
            == (
            retrying(rest, task, (mode.budget() - k) as nat, error_views(errors.take(k))),
            ActionView::Perform(task),
        ),
    decreases k,
{
    if k == 0 {
        assert(errors.take(0) =~= Seq::<Error>::empty());
        assert(error_views(errors.take(0)) =~= Seq::<ErrorView>::empty());
    } else {
        lemma_attempts_within_budget(mode, rest, task, errors, k - 1);
        assert(errors.take(k).drop_last() =~= errors.take(k - 1));
        assert(errors.take(k).last() == errors[k - 1]);
        lemma_failure_within_budget(
            mode,
            rest,
            task,
            (mode.budget() - (k - 1)) as nat,
            error_views(errors.take(k - 1)),
            errors[k - 1],
        );
    }
}

/// When a retried task succeeds, it is not asked for again, whatever is
/// left of its budget: the engine goes on with the work below it.
pub proof fn lemma_success_ends_retries(
    mode: Mode,
    rest: Seq<FrameView>,
    task: TaskView,
    remaining: nat,
    errors: Seq<ErrorView>,
)
    requires
        task is Download || (task is Upload && !task->Upload_0.remove_after),
    ensures
        next(mode, retrying(rest, task, remaining, errors), Event::Done) == advance(
            mode.budget(),
            rest,
        ),
{
    assert(retrying(rest, task, remaining, errors).stack.drop_last() =~= rest);
}

/// A plan put on the stack lies there with its first step on top.
pub proof fn lemma_pushed_top(stack: Seq<FrameView>, plan: Seq<StepView>)
    requires
        plan.len() > 0,
    ensures
        pushed(stack, plan) == pushed(stack, plan.skip(1)).push(FrameView::Todo(plan[0])),
    decreases plan.len(),
{
    let below = stack.push(FrameView::Todo(plan.last()));
    assert(pushed(stack, plan) == pushed(below, plan.drop_last()));
    if plan.len() == 1 {
        assert(plan.drop_last() =~= Seq::<StepView>::empty());
        assert(plan.skip(1) =~= Seq::<StepView>::empty());
        assert(pushed(below, plan.drop_last()) == below);
        assert(pushed(stack, plan.skip(1)) == stack);
    } else {
        lemma_pushed_top(below, plan.drop_last());
        let tail = plan.skip(1);
        assert(plan.drop_last().skip(1) =~= tail.drop_last());
        assert(plan.drop_last()[0] == plan[0]);
        assert(tail.last() == plan.last());
        assert(pushed(stack, tail) == pushed(below, tail.drop_last()));
    }
}

/// The steps of a plan are taken in their order: once a plan lies on the
/// stack, the engine asks for the task of its first step, and the rest of
/// the plan lies on the stack as if it had been put there alone, below the
/// mark of the first step if that step is retried.
pub proof fn lemma_plan_runs_in_order(budget: nat, stack: Seq<FrameView>, plan: Seq<StepView>)
    requires
        plan.len() > 0,
    ensures
        advance(budget, pushed(stack, plan)).1 == ActionView::Perform(plan[0].task),
        advance(budget, pushed(stack, plan)).0.current == Some(plan[0].task),
        advance(budget, pushed(stack, plan)).0.stack == if plan[0].retried {
            pushed(stack, plan.skip(1)).push(
                FrameView::Scope {
                    remaining: budget,
                    errors: Seq::empty(),
                    restart: plan[0].task,
                },
            )
        } else {
            pushed(stack, plan.skip(1))
        },
{
    lemma_pushed_top(stack, plan);
    let rest = pushed(stack, plan.skip(1));
    assert(rest.push(FrameView::Todo(plan[0])).drop_last() =~= rest);
}

/// When the checksum of the remote file arrives, the file is uploaded
/// exactly when it differs from the checksum of the local file; when the
/// two are equal, the engine goes on with the work that is left.
pub proof fn lemma_checksum_decides_upload(
    mode: Mode,
    state: EngineView,
    remote: String,
)
    requires
        state.current is Some,
        state.current->0 is RemoteChecksum,
    ensures
        state.current->0->RemoteChecksum_local != remote@ ==> next(
            mode,
            state,
            Event::RemoteChecksum(remote),
        ) == (
            EngineView {
                stack: state.stack,
                current: Some(TaskView::Upload(state.current->0->RemoteChecksum_upload)),
            },
            ActionView::Perform(TaskView::Upload(state.current->0->RemoteChecksum_upload)),
        ),
        state.current->0->RemoteChecksum_local == remote@ ==> next(
            mode,
            state,
            Event::RemoteChecksum(remote),
        ) == advance(mode.budget(), state.stack),
{
    let upload = state.current->0->RemoteChecksum_upload;
    let pushed = state.stack.push(FrameView::Todo(once(TaskView::Upload(upload))));
    assert(pushed.drop_last() =~= state.stack);
}

/// When the checksum of the local file cannot be computed, the run does not
/// fail: the file is not uploaded, the engine asks for the reason to be
/// reported, and the work that is left stays as it is.
pub proof fn lemma_checksum_failure_is_reported(mode: Mode, state: EngineView, reason: String)
    requires
        state.current is Some,
        state.current->0 is LocalChecksum,
    ensures
        next(mode, state, Event::LocalChecksum(Err(reason))) == (
            EngineView {
                stack: state.stack,
                current: Some(
                    TaskView::Report(
                        DiagnosticView::ChecksumUnavailable {
                            path: state.current->0->LocalChecksum_upload.path,
                            reason: reason@,
                        },
                    ),
                ),
            },
            ActionView::Perform(
                TaskView::Report(
                    DiagnosticView::ChecksumUnavailable {
                        path: state.current->0->LocalChecksum_upload.path,
                        reason: reason@,
                    },
                ),
            ),
        ),
{
    let report = TaskView::Report(
        DiagnosticView::ChecksumUnavailable {
            path: state.current->0->LocalChecksum_upload.path,
            reason: reason@,
        },
    );
    let pushed = state.stack.push(FrameView::Todo(once(report)));
    assert(pushed.drop_last() =~= state.stack);
}

/// The local file of an upload that carries its removal is removed once
/// the upload has ended well: the engine asks for the removal next, before
/// anything else, and a failure of the removal will be passed over.
pub proof fn lemma_removal_follows_upload(mode: Mode, state: EngineView)
    requires
        state.current is Some,
        state.current->0 is Upload,
        state.current->0->Upload_0.remove_after,
    ensures
        next(mode, state, Event::Done) == (
            EngineView {
                stack: state.stack,
                current: Some(
                    TaskView::RemoveLocalFile {
                        path: state.current->0->Upload_0.path,
                        lenient: true,
                    },
                ),
            },
            ActionView::Perform(
                TaskView::RemoveLocalFile { path: state.current->0->Upload_0.path, lenient: true },
            ),
        ),
{
    let removal = TaskView::RemoveLocalFile {
        path: state.current->0->Upload_0.path,
        lenient: true,
    };
    let pushed = state.stack.push(FrameView::Todo(once(removal)));
    assert(pushed.drop_last() =~= state.stack);
}

/// An upload that fails brings no removal: the failure goes to the retried
/// step under way or ends the run, and the work that is left is not added
/// to.
pub proof fn lemma_failed_upload_removes_nothing(
    mode: Mode,
    state: EngineView,
    err: Error,
)
    requires
        state.current is Some,
        state.current->0 is Upload,
    ensures
        react(mode, state.current, state.stack, Event::Failed(err)) == Reaction::Fail(
            error_view(err),
        ),
{
}

/// A file that is skipped because its checksum could not be computed is
/// kept: after the report the engine goes on with the work that was left
/// below the retried step, to which nothing was added, whether or not what
/// is uploaded is to be removed.
pub proof fn lemma_skipped_file_is_kept(
    mode: Mode,
    rest: Seq<FrameView>,
    task: TaskView,
    remaining: nat,
    errors: Seq<ErrorView>,
    reason: String,
)
    requires
        task is LocalChecksum,
    ensures
        next(
            mode,
            next(
                mode,
                retrying(rest, task, remaining, errors),
                Event::LocalChecksum(Err(reason)),
            ).0,
            Event::Done,
        ) == advance(mode.budget(), rest),
{
    let state = retrying(rest, task, remaining, errors);
    lemma_checksum_failure_is_reported(mode, state, reason);
    assert(state.stack.drop_last() =~= rest);
}

/// A file whose checksum equals that of the remote file is kept: the engine
/// goes on with the work that was left below the retried step, to which
/// nothing was added.
pub proof fn lemma_unchanged_file_is_kept(
    mode: Mode,
    rest: Seq<FrameView>,
    task: TaskView,
    remaining: nat,
    errors: Seq<ErrorView>,
    remote: String,
)
    requires
        task is RemoteChecksum,
        task->RemoteChecksum_local == remote@,
    ensures
        next(
            mode,
            EngineView {
                stack: rest.push(FrameView::Scope { remaining, errors, restart: task }),
                current: Some(task),
            },
            Event::RemoteChecksum(remote),
        ) == advance(mode.budget(), rest),
{
    let stack = rest.push(FrameView::Scope { remaining, errors, restart: task });
    assert(stack.drop_last() =~= rest);
}

/// The engine decides by checksums as the decision by checksums says: after
/// the local checksum it asks for the remote one or skips, and after the
/// remote one it uploads exactly when the decision is to upload.
pub proof fn lemma_engine_decides_by_checksum(
    mode: Mode,
    stack: Seq<FrameView>,
    task: TaskView,
    local: Result<String, String>,
    remote: String,
)
    ensures
        task is LocalChecksum ==> (by_checksum(
            Some(task->LocalChecksum_file_id),
            Some(
                match local {
                    Ok(sum) => Ok::<Seq<char>, Seq<char>>(sum@),
                    Err(reason) => Err::<Seq<char>, Seq<char>>(reason@),
                },
            ),
            None,
        ) is Skip <==> react(mode, Some(task), stack, Event::LocalChecksum(local))
            == Reaction::Proceed(
            stack.push(
                FrameView::Todo(
                    once(
                        TaskView::Report(
                            DiagnosticView::ChecksumUnavailable {
                                path: task->LocalChecksum_upload.path,
                                reason: local->Err_0@,
                            },
                        ),
                    ),
                ),
            ),
        ) && local is Err),
        task is RemoteChecksum ==> (by_checksum(
            Some(task->RemoteChecksum_file_id),
            Some(Ok(task->RemoteChecksum_local)),
            Some(remote@),
        ) == Decision::Upload <==> react(mode, Some(task), stack, Event::RemoteChecksum(remote))
            == Reaction::Proceed(
            stack.push(FrameView::Todo(once(TaskView::Upload(task->RemoteChecksum_upload)))),
        )),
{
    if task is RemoteChecksum {
        let with_upload = stack.push(
            FrameView::Todo(once(TaskView::Upload(task->RemoteChecksum_upload))),
        );
        assert(with_upload.len() != stack.len());
    }
}

} // verus!
