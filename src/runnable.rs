use vstd::prelude::*;

use crate::pipeline::Notification;

verus! {

/// Something driven by periodic updates between a start and a stop.
pub trait Runnable {
    fn update(&mut self) -> Result<(), Notification>;

    fn on_start(&mut self);

    fn on_stop(&mut self);
}

#[derive(Clone, Copy, Debug, PartialEq, Eq, Structural)]
pub enum RunnableState {
    NotRunning,
    Running,
}

/// A start or stop asked for in the state that it would leave.
#[derive(Clone, Copy, Debug, PartialEq, Eq, Structural)]
pub struct WrongRunnableState;

/// Tracks whether a runnable is running, so that it is started and stopped in turn and
/// updated only while it runs.
pub struct RunnableStateMachine<R> {
    state: RunnableState,
    runnable: R,
}

impl<R: Runnable> RunnableStateMachine<R> {
    pub closed spec fn spec_state(&self) -> RunnableState {
        self.state
    }

    pub fn new(runnable: R) -> (r: Self)
        ensures
            r.spec_state() == RunnableState::NotRunning,
    {
        RunnableStateMachine { state: RunnableState::NotRunning, runnable }
    }

    /// Starts the runnable at once.
    pub fn new_running(runnable: R) -> (r: Self)
        ensures
            r.spec_state() == RunnableState::Running,
    {
        let mut runnable = runnable;
        runnable.on_start();
        RunnableStateMachine { state: RunnableState::Running, runnable }
    }

    pub fn start(&mut self) -> (r: Result<(), WrongRunnableState>)
        ensures
            r.is_err() <==> old(self).spec_state() == RunnableState::Running,
            final(self).spec_state() == RunnableState::Running,
    {
        if self.state == RunnableState::Running {
            return Err(WrongRunnableState);
        }
        self.runnable.on_start();
        self.state = RunnableState::Running;
        Ok(())
    }

    pub fn stop(&mut self) -> (r: Result<(), WrongRunnableState>)
        ensures
            r.is_err() <==> old(self).spec_state() == RunnableState::NotRunning,
            final(self).spec_state() == RunnableState::NotRunning,
    {
        if self.state == RunnableState::NotRunning {
            return Err(WrongRunnableState);
        }
        self.runnable.on_stop();
        self.state = RunnableState::NotRunning;
        Ok(())
    }

    /// Starts a stopped runnable, stops a running one.
    pub fn next_state(&mut self) -> (r: Result<(), WrongRunnableState>)
        ensures
            r.is_ok(),
            final(self).spec_state() != old(self).spec_state(),
    {
        match self.state {
            RunnableState::NotRunning => self.start(),
            RunnableState::Running => self.stop(),
        }
    }

    /// Updates the runnable where it runs; `None` where it does not.
    pub fn proceed(&mut self) -> (r: Option<Result<(), Notification>>)
        ensures
            r.is_some() <==> old(self).spec_state() == RunnableState::Running,
            final(self).spec_state() == old(self).spec_state(),
    {
        if self.state == RunnableState::Running {
            return Some(self.runnable.update());
        }
        None
    }

    pub fn runnable(&self) -> &R {
        &self.runnable
    }

    /// Stops the runnable where it runs and hands it back.
    pub fn into_runnable(self) -> R {
        let mut machine = self;
        let _ = machine.stop();
        machine.runnable
    }

    pub fn is_running(&self) -> (r: bool)
        ensures
            r == (self.spec_state() == RunnableState::Running),
    {
        self.state == RunnableState::Running
    }
}

} // verus!
