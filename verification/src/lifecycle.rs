//! The lifecycle of the background timer: created, running, stopping,
//! stopped. The owner of the background tasks performs the transitions;
//! the tasks ask before every tick whether to go on.

use vstd::prelude::*;

verus! {

/// Periodic timer duration in milliseconds between polling calls to the
/// gossip layer.
pub const P2P_TIMER_DURATION_MS: u64 = 100;

/// Where the lifecycle stands.
#[derive(Clone, Copy, Debug, PartialEq, Eq, Structural)]
pub enum RunState {
    /// No background task was started.
    Created,
    /// Background tasks tick.
    Running,
    /// A stop was requested; background tasks are still to be joined.
    Stopping,
    /// Every background task has exited.
    Stopped,
}

/// What a background task does next.
#[derive(Clone, Copy, Debug, PartialEq, Eq, Structural)]
pub enum TimerAction {
    /// Sleep for the given number of milliseconds, then tick.
    SleepThenTick(u64),
    /// Leave the loop.
    Exit,
}

/// What happens to a lifecycle.
pub ghost enum LifecycleEvent {
    /// The owner starts a background task.
    Run,
    /// The owner requests the stop.
    Stop,
    /// The owner has joined a background task.
    TaskExited,
}

/// A lifecycle as a mathematical value.
pub ghost struct LifecycleView {
    pub state: RunState,
    /// The background tasks that were started and not yet joined.
    pub tasks: nat,
}

impl LifecycleView {
    /// The invariant: tasks exist exactly while running or stopping.
    pub open spec fn wf(self) -> bool {
        match self.state {
            RunState::Created => self.tasks == 0,
            RunState::Running => self.tasks > 0,
            RunState::Stopping => self.tasks > 0,
            RunState::Stopped => self.tasks == 0,
        }
    }

    /// Whether a stop was requested.
    pub open spec fn stop_requested(self) -> bool {
        self.state is Stopping || self.state is Stopped
    }

    /// Whether background tasks tick.
    pub open spec fn ticking(self) -> bool {
        self.state is Running
    }

    /// Whether `run` starts a task: it does until a stop is requested.
    pub open spec fn can_run(self) -> bool {
        !self.stop_requested() && self.tasks < usize::MAX
    }

    /// The lifecycle after `run`.
    pub open spec fn run(self) -> LifecycleView {
        if self.can_run() {
            LifecycleView { state: RunState::Running, tasks: self.tasks + 1 }
        } else {
            self
        }
    }

    /// The lifecycle after a stop was requested: stopped at once if no
    /// task is to be joined.
    pub open spec fn request_stop(self) -> LifecycleView {
        if self.tasks == 0 {
            LifecycleView { state: RunState::Stopped, tasks: 0 }
        } else {
            LifecycleView { state: RunState::Stopping, ..self }
        }
    }

    /// The lifecycle after a background task was joined. Tasks are joined
    /// only after the stop was requested; the last one joined ends the
    /// lifecycle.
    pub open spec fn task_exited(self) -> LifecycleView {
        if self.state is Stopping {
            if self.tasks == 1 {
                LifecycleView { state: RunState::Stopped, tasks: 0 }
            } else {
                LifecycleView { tasks: (self.tasks - 1) as nat, ..self }
            }
        } else {
            self
        }
    }

    /// The lifecycle after an event.
    pub open spec fn after(self, event: LifecycleEvent) -> LifecycleView {
        match event {
            LifecycleEvent::Run => self.run(),
            LifecycleEvent::Stop => self.request_stop(),
            LifecycleEvent::TaskExited => self.task_exited(),
        }
    }

    /// The lifecycle after a sequence of events.
    pub open spec fn after_all(self, events: Seq<LifecycleEvent>) -> LifecycleView
        decreases events.len(),
    {
        if events.len() == 0 {
            self
        } else {
            self.after_all(events.drop_last()).after(events.last())
        }
    }

    /// The lifecycle after `n` background tasks were joined.
    pub open spec fn after_joins(self, n: nat) -> LifecycleView
        decreases n,
    {
        if n == 0 {
            self
        } else {
            self.after_joins((n - 1) as nat).task_exited()
        }
    }

    /// Once a stop was requested there is no tick any more, whatever
    /// happens afterwards, and no task is started.
    pub proof fn lemma_no_tick_after_stop(self, events: Seq<LifecycleEvent>)
        requires
            self.wf(),
            self.stop_requested(),
        ensures
            self.after_all(events).wf(),
            self.after_all(events).stop_requested(),
            !self.after_all(events).ticking(),
            self.after_all(events).tasks <= self.tasks,
        decreases events.len(),
    {
        if events.len() > 0 {
            self.lemma_no_tick_after_stop(events.drop_last());
        }
    }

    /// The request to stop is idempotent: a second request changes
    /// nothing.
    pub proof fn lemma_request_stop_idempotent(self)
        ensures
            self.request_stop().request_stop() == self.request_stop(),
            self.request_stop().stop_requested(),
    {
    }

    /// Every event keeps the invariant.
    pub proof fn lemma_after_wf(self, event: LifecycleEvent)
        requires
            self.wf(),
        ensures
            self.after(event).wf(),
    {
    }

    /// A stop ends only when every background task was joined: after the
    /// request, the lifecycle is stopped exactly when as many tasks were
    /// joined as were running.
    pub proof fn lemma_stop_joins_all(self, joined: nat)
        requires
            self.wf(),
            joined <= self.tasks,
        ensures
            self.request_stop().after_joins(joined).wf(),
            self.request_stop().after_joins(joined).tasks == self.tasks - joined,
            self.request_stop().after_joins(joined).state is Stopped <==> joined == self.tasks,
            joined < self.tasks ==> self.request_stop().after_joins(joined).state is Stopping,
        decreases joined,
    {
        if joined > 0 {
            self.lemma_stop_joins_all((joined - 1) as nat);
        }
    }
}

/// The lifecycle of the background timer and of the tasks that run it.
#[derive(Debug)]
pub struct Lifecycle {
    state: RunState,
    tasks: usize,
}

impl View for Lifecycle {
    type V = LifecycleView;

    closed spec fn view(&self) -> LifecycleView {
        LifecycleView { state: self.state, tasks: self.tasks as nat }
    }
}

impl Lifecycle {
    /// The lifecycle's invariant.
    pub open spec fn wf(&self) -> bool {
        self@.wf()
    }

    /// A lifecycle in which nothing was started.
    pub fn new() -> (lifecycle: Lifecycle)
        ensures
            lifecycle.wf(),
            lifecycle@ == (LifecycleView { state: RunState::Created, tasks: 0 }),
    {
        Lifecycle { state: RunState::Created, tasks: 0 }
    }

    /// Where the lifecycle stands.
    pub fn state(&self) -> (state: RunState)
        ensures
            state == self@.state,
    {
        self.state
    }

    /// The background tasks that were started and not yet joined.
    pub fn tasks(&self) -> (n: usize)
        ensures
            n == self@.tasks,
    {
        self.tasks
    }

    /// Asks for a background task to be started. Returns whether the
    /// caller is to start one: it is, unless a stop was requested.
    pub fn run(&mut self) -> (start: bool)
        requires
            old(self).wf(),
        ensures
            final(self).wf(),
            start == old(self)@.can_run(),
            final(self)@ == old(self)@.run(),
    {
        match self.state {
            RunState::Created | RunState::Running => {
                if self.tasks < usize::MAX {
                    self.tasks = self.tasks + 1;
                    self.state = RunState::Running;
                    true
                } else {
                    false
                }
            },
            _ => false,
        }
    }

    /// Requests the stop. Returns how many background tasks the caller is
    /// to join. A second request changes nothing.
    pub fn request_stop(&mut self) -> (to_join: usize)
        requires
            old(self).wf(),
        ensures
            final(self).wf(),
            final(self)@ == old(self)@.request_stop(),
            to_join == old(self)@.tasks,
    {
        if self.tasks == 0 {
            self.state = RunState::Stopped;
        } else {
            self.state = RunState::Stopping;
        }
        self.tasks
    }

    /// Takes note that a background task was joined. Returns whether the
    /// lifecycle is stopped now.
    pub fn task_exited(&mut self) -> (stopped: bool)
        requires
            old(self).wf(),
        ensures
            final(self).wf(),
            final(self)@ == old(self)@.task_exited(),
            stopped == (final(self)@.state is Stopped),
    {
        match self.state {
            RunState::Stopping => {
                self.tasks = self.tasks - 1;
                if self.tasks == 0 {
                    self.state = RunState::Stopped;
                }
            },
            _ => {},
        }
        match self.state {
            RunState::Stopped => true,
            _ => false,
        }
    }

    /// What a background task does next: it sleeps for the timer's
    /// duration and ticks while the lifecycle is running, and leaves its
    /// loop as soon as it is not.
    pub fn next_action(&self) -> (action: TimerAction)
        ensures
            self@.ticking() ==> action == TimerAction::SleepThenTick(P2P_TIMER_DURATION_MS),
            !self@.ticking() ==> action == TimerAction::Exit,
    {
        match self.state {
            RunState::Running => TimerAction::SleepThenTick(P2P_TIMER_DURATION_MS),
            _ => TimerAction::Exit,
        }
    }
}

} // verus!
