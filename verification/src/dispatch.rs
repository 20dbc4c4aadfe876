//! The dispatcher: it decides, event by event, what a run does next. The
//! caller reads the lines and runs the commands; the dispatcher groups the
//! lines, builds each invocation and settles how the run ends.

use crate::batch::{
    batch_count, batches, flushed, lemma_streamed_from, pushed, streamed, Batcher,
};
use crate::error::ErrorKind;
use crate::options::{Invocation, InvocationView, Opt, OptView};
use vstd::prelude::*;

verus! {

/// What the caller reports to the dispatcher.
#[derive(Debug)]
pub enum Event {
    /// The next line of input, without its line end.
    Line(String),
    /// The next line of input could not be read or decoded.
    ReadFailed,
    /// The input has ended.
    EndOfInput,
    /// The command could not be started.
    SpawnFailed,
    /// The command ran to its end; `true` where its exit status was zero.
    ChildExited(bool),
}

/// An event as plain values.
pub enum EventView {
    Line(Seq<char>),
    ReadFailed,
    EndOfInput,
    SpawnFailed,
    ChildExited(bool),
}

/// What the dispatcher asks the caller to do next.
#[derive(Debug)]
pub enum Action {
    /// Read the next line and report it, or that there is none.
    Read,
    /// Show the invocation's line, if it has one, then start the command,
    /// wait for it to end, and report how that went.
    Run(Invocation),
    /// End the run, with the error that it ends with, if any.
    Stop(Option<ErrorKind>),
}

/// An action as plain values.
pub enum ActionView {
    Read,
    Run(InvocationView),
    Stop(Option<ErrorKind>),
}

impl View for Event {
    type V = EventView;

    open spec fn view(&self) -> EventView {
        match self {
            Event::Line(line) => EventView::Line(line@),
            Event::ReadFailed => EventView::ReadFailed,
            Event::EndOfInput => EventView::EndOfInput,
            Event::SpawnFailed => EventView::SpawnFailed,
            Event::ChildExited(success) => EventView::ChildExited(*success),
        }
    }
}

impl View for Action {
    type V = ActionView;

    open spec fn view(&self) -> ActionView {
        match self {
            Action::Read => ActionView::Read,
            Action::Run(invocation) => ActionView::Run(invocation@),
            Action::Stop(outcome) => ActionView::Stop(*outcome),
        }
    }
}

/// The state of a run.
pub struct Dispatcher {
    opt: Opt,
    batcher: Batcher,
    child_failed: bool,
    fatal: Option<ErrorKind>,
    ended: bool,
}

/// The state of a run as plain values.
pub struct DispatcherView {
    /// The configuration.
    pub opt: OptView,
    /// The lines read since the last batch was handed out.
    pub pending: Seq<Seq<char>>,
    /// Whether a command has exited with a status other than zero.
    pub child_failed: bool,
    /// The error that ended the run at once, if there was one.
    pub fatal: Option<ErrorKind>,
    /// Whether the end of the input was reported.
    pub ended: bool,
}

impl DispatcherView {
    /// The state before the first event.
    pub open spec fn start(opt: OptView) -> DispatcherView {
        DispatcherView {
            opt,
            pending: Seq::empty(),
            child_failed: false,
            fatal: None,
            ended: false,
        }
    }

    /// Fewer lines are pending than make a batch.
    pub open spec fn wf(self) -> bool {
        self.pending.len() < self.opt.limit
    }

    /// The error that the run ends with if it ends now: the one that ended
    /// it at once, if there was one; else a command's failure, if there was
    /// one; else none.
    pub open spec fn outcome(self) -> Option<ErrorKind> {
        if self.fatal is Some {
            self.fatal
        } else if self.child_failed {
            Some(ErrorKind::ChildExit)
        } else {
            None
        }
    }

    /// The state after `event`, and the action that answers it.
    ///
    /// After an error that ends the run at once, and after the end of the
    /// input once its last batch is handed out, nothing changes any more and
    /// the answer is to stop. Before that: a line joins the pending lines,
    /// and the batch is run where it is complete; the end of the input has
    /// the pending lines run as the last batch, or ends the run where none
    /// is pending; a failed read or a command that could not be started ends
    /// the run at once, with that error; a command's exit is remembered where
    /// it was a failure, and the run goes on.
    pub open spec fn step(self, event: EventView) -> (DispatcherView, ActionView) {
        if self.fatal is Some {
            (self, ActionView::Stop(self.outcome()))
        } else {
            match event {
                EventView::Line(line) => {
                    if self.ended {
                        (self, ActionView::Stop(self.outcome()))
                    } else {
                        let (batch, rest) = pushed(self.pending, line, self.opt.limit);
                        let next = DispatcherView { pending: rest, ..self };
                        match batch {
                            Some(batch) => (next, ActionView::Run(self.opt.invocation(batch))),
                            None => (next, ActionView::Read),
                        }
                    }
                },
                EventView::ReadFailed => {
                    let next = DispatcherView { fatal: Some(ErrorKind::InputRead), ..self };
                    (next, ActionView::Stop(next.outcome()))
                },
                EventView::EndOfInput => {
                    let next = DispatcherView { pending: Seq::empty(), ended: true, ..self };
                    match flushed(self.pending) {
                        Some(batch) => (next, ActionView::Run(self.opt.invocation(batch))),
                        None => (next, ActionView::Stop(next.outcome())),
                    }
                },
                EventView::SpawnFailed => {
                    let next = DispatcherView { fatal: Some(ErrorKind::Spawn), ..self };
                    (next, ActionView::Stop(next.outcome()))
                },
                EventView::ChildExited(success) => {
                    let next = DispatcherView {
                        child_failed: self.child_failed || !success,
                        ..self
                    };
                    if self.ended {
                        (next, ActionView::Stop(next.outcome()))
                    } else {
                        (next, ActionView::Read)
                    }
                },
            }
        }
    }
}

impl DispatcherView {
    /// The answers to `events`, taken one after the other, and the state
    /// after the last of them.
    pub open spec fn run(self, events: Seq<EventView>) -> (DispatcherView, Seq<ActionView>)
        decreases events.len(),
    {
        if events.len() == 0 {
            (self, Seq::empty())
        } else {
            let (next, action) = self.step(events[0]);
            let (last, later) = next.run(events.drop_first());
            (last, seq![action] + later)
        }
    }

    /// What a run does from this state on where the caller does as it is
    /// asked and every command can be started: the invocations that are run,
    /// in order, and the error that the run ends with. The caller reports
    /// `lines` one by one and then the end of the input, and after each
    /// command that it exited: with success where `exits` holds of the
    /// command's number in the run. `done` commands were run before.
    pub open spec fn drive(
        self,
        lines: Seq<Seq<char>>,
        exits: spec_fn(int) -> bool,
        done: int,
    ) -> (Seq<InvocationView>, Option<ErrorKind>)
        decreases lines.len(),
    {
        let at_end = lines.len() == 0;
        let event = if at_end {
            EventView::EndOfInput
        } else {
            EventView::Line(lines[0])
        };
        let (next, action) = self.step(event);
        match action {
            ActionView::Stop(outcome) => (Seq::empty(), outcome),
            ActionView::Read => if at_end {
                (Seq::empty(), next.outcome())
            } else {
                next.drive(lines.drop_first(), exits, done)
            },
            ActionView::Run(invocation) => {
                let after = next.step(EventView::ChildExited(exits(done))).0;
                if at_end {
                    (seq![invocation], after.outcome())
                } else {
                    let (later, outcome) = after.drive(lines.drop_first(), exits, done + 1);
                    (seq![invocation] + later, outcome)
                }
            },
        }
    }
}

impl OptView {
    /// The invocations of a whole run over `lines`: one for each batch, in
    /// order.
    pub open spec fn plan(self, lines: Seq<Seq<char>>) -> Seq<InvocationView> {
        batches(lines, self.limit).map_values(|batch: Seq<Seq<char>>| self.invocation(batch))
    }
}

/// Whether one of the commands with the numbers from `from` up to, and
/// without, `to` exits with a failure.
pub open spec fn any_failed(exits: spec_fn(int) -> bool, from: int, to: int) -> bool {
    exists|k: int| from <= k < to && !#[trigger] exits(k)
}

/// An error that ends the run at once is final: whatever is reported after
/// it, the state stays as it is and every answer is to stop with that error.
/// No line that comes later is run, and no later event hides the error.
pub proof fn lemma_fatal_is_final(state: DispatcherView, events: Seq<EventView>)
    requires
        state.fatal is Some,
    ensures
        state.run(events).0 == state,
        state.run(events).1 == Seq::new(events.len(), |i: int| ActionView::Stop(state.fatal)),
    decreases events.len(),
{
    if events.len() > 0 {
        lemma_fatal_is_final(state, events.drop_first());
    }
    assert(state.run(events).1 =~= Seq::new(events.len(), |i: int| ActionView::Stop(state.fatal)));
}

/// A read that fails and a command that cannot be started end the run at
/// once, each with its own error, whatever happened before and whatever is
/// reported afterwards.
pub proof fn lemma_failure_ends_run(state: DispatcherView, spawn: bool, events: Seq<EventView>)
    requires
        state.fatal is None,
    ensures
        ({
            let kind = if spawn {
                ErrorKind::Spawn
            } else {
                ErrorKind::InputRead
            };
            let event = if spawn {
                EventView::SpawnFailed
            } else {
                EventView::ReadFailed
            };
            let (next, action) = state.step(event);
            &&& action == ActionView::Stop(Some(kind))
            &&& next.run(events).0 == next
            &&& next.run(events).1 == Seq::new(
                events.len(),
                |i: int| ActionView::Stop(Some(kind)),
            )
        }),
{
    let event = if spawn {
        EventView::SpawnFailed
    } else {
        EventView::ReadFailed
    };
    let next = state.step(event).0;
    lemma_fatal_is_final(next, events);
    assert(next.run(events).1 =~= Seq::new(events.len(), |i: int| ActionView::Stop(next.fatal)));
}

/// From a state in which the input has not ended and no error has ended the
/// run, a run makes one invocation for each batch of the pending lines
/// followed by `lines`, as they come out line by line, and it ends with a
/// command's failure exactly where a command had failed before or one of
/// these fails.
proof fn lemma_drive_from(
    state: DispatcherView,
    lines: Seq<Seq<char>>,
    exits: spec_fn(int) -> bool,
    done: int,
)
    requires
        state.wf(),
        state.fatal is None,
        !state.ended,
    ensures
        ({
            let out = streamed(state.pending, lines, state.opt.limit);
            let (invocations, outcome) = state.drive(lines, exits, done);
            &&& invocations == out.map_values(|batch: Seq<Seq<char>>| state.opt.invocation(batch))
            &&& outcome == if state.child_failed || any_failed(exits, done, done + out.len()) {
                Some(ErrorKind::ChildExit)
            } else {
                None
            }
        }),
    decreases lines.len(),
{
    let limit = state.opt.limit;
    let build = |batch: Seq<Seq<char>>| state.opt.invocation(batch);
    let out = streamed(state.pending, lines, limit);
    let (invocations, outcome) = state.drive(lines, exits, done);
    if lines.len() == 0 {
        match flushed(state.pending) {
            Some(batch) => {
                assert(out =~= seq![batch]);
                assert(invocations =~= out.map_values(build));
                assert(any_failed(exits, done, done + 1) <==> !exits(done));
            },
            None => {
                assert(invocations =~= out.map_values(build));
            },
        }
    } else {
        let (batch, rest) = pushed(state.pending, lines[0], limit);
        let (next, action) = state.step(EventView::Line(lines[0]));
        let later = lines.drop_first();
        let tail = streamed(rest, later, limit);
        match batch {
            Some(batch) => {
                let after = next.step(EventView::ChildExited(exits(done))).0;
                lemma_drive_from(after, later, exits, done + 1);
                assert(out =~= seq![batch] + tail);
                assert(tail.map_values(|b: Seq<Seq<char>>| after.opt.invocation(b))
                    =~= tail.map_values(build));
                assert(invocations =~= out.map_values(build));
                assert(any_failed(exits, done, done + out.len()) <==> !exits(done) || any_failed(
                    exits,
                    done + 1,
                    done + 1 + tail.len(),
                ));
            },
            None => {
                lemma_drive_from(next, later, exits, done);
                assert(tail.map_values(|b: Seq<Seq<char>>| next.opt.invocation(b))
                    =~= out.map_values(build));
            },
        }
    }
}

/// A whole run, where the caller does as it is asked and every command can
/// be started: it runs the planned invocations, one for each batch of the
/// lines and in their order, and it ends with a command's failure exactly
/// where one of the commands failed, and with no error otherwise.
pub proof fn lemma_run_follows_plan(
    opt: OptView,
    lines: Seq<Seq<char>>,
    exits: spec_fn(int) -> bool,
)
    requires
        opt.limit >= 1,
    ensures
        DispatcherView::start(opt).drive(lines, exits, 0).0 == opt.plan(lines),
        DispatcherView::start(opt).drive(lines, exits, 0).1 == if any_failed(
            exits,
            0,
            batch_count(lines.len(), opt.limit) as int,
        ) {
            Some(ErrorKind::ChildExit)
        } else {
            None
        },
{
    let state = DispatcherView::start(opt);
    lemma_drive_from(state, lines, exits, 0);
    lemma_streamed_from(state.pending, lines, opt.limit);
    assert(state.pending + lines =~= lines);
}

impl View for Dispatcher {
    type V = DispatcherView;

    closed spec fn view(&self) -> DispatcherView {
        DispatcherView {
            opt: OptView { limit: self.batcher.limit(), ..self.opt@ },
            pending: self.batcher.pending(),
            child_failed: self.child_failed,
            fatal: self.fatal,
            ended: self.ended,
        }
    }
}

impl Dispatcher {
    /// A dispatcher for a run with the configuration `opt`, before the first
    /// event. A batch size of zero is rejected.
    pub fn new(opt: Opt) -> (r: Result<Dispatcher, ErrorKind>)
        ensures
            r is Err <==> opt.limit == 0,
            r matches Err(e) ==> e == ErrorKind::Configuration,
            r matches Ok(d) ==> d@ == DispatcherView::start(opt@) && d@.wf(),
    {
        match Batcher::new(opt.limit) {
            Err(e) => Err(e),
            Ok(batcher) => Ok(
                Dispatcher { opt, batcher, child_failed: false, fatal: None, ended: false },
            ),
        }
    }

    /// The error that the run ends with if it ends now.
    pub fn outcome(&self) -> (outcome: Option<ErrorKind>)
        ensures
            outcome == self@.outcome(),
    {
        if self.fatal.is_some() {
            self.fatal
        } else if self.child_failed {
            Some(ErrorKind::ChildExit)
        } else {
            None
        }
    }

    /// Takes the next event and answers with what to do next.
    pub fn step(&mut self, event: Event) -> (action: Action)
        ensures
            (final(self)@, action@) == old(self)@.step(event@),
            final(self)@.wf(),
    {
        proof {
            use_type_invariant(&self.batcher);
        }
        if self.fatal.is_some() {
            return Action::Stop(self.outcome());
        }
        match event {
            Event::Line(line) => {
                if self.ended {
                    Action::Stop(self.outcome())
                } else {
                    match self.batcher.push(line) {
                        Some(batch) => Action::Run(self.opt.invocation(batch.as_slice())),
                        None => Action::Read,
                    }
                }
            },
            Event::ReadFailed => {
                self.fatal = Some(ErrorKind::InputRead);
                Action::Stop(self.outcome())
            },
            Event::EndOfInput => {
                self.ended = true;
                match self.batcher.finish() {
                    Some(batch) => Action::Run(self.opt.invocation(batch.as_slice())),
                    None => Action::Stop(self.outcome()),
                }
            },
            Event::SpawnFailed => {
                self.fatal = Some(ErrorKind::Spawn);
                Action::Stop(self.outcome())
            },
            Event::ChildExited(success) => {
                if !success {
                    self.child_failed = true;
                }
                if self.ended {
                    Action::Stop(self.outcome())
                } else {
                    Action::Read
                }
            },
        }
    }
}

} // verus!
