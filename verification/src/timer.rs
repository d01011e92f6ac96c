//! The timer that steps through a simulation for the user interface.

use vstd::prelude::*;

verus! {

/// Where the timer stands.
#[derive(Debug, Clone, Copy, PartialEq, Eq, Structural)]
pub struct SimTimerState {
    pub current_step: usize,
    pub running: bool,
    pub total_steps: usize,
}

/// What one tick of the timer tells.
#[derive(Debug, Clone, Copy, PartialEq, Eq, Structural)]
pub enum TimerTick {
    /// The timer does not run; the ticking ends.
    Stopped,
    /// Every step was told; the simulation is complete and the ticking
    /// ends.
    Complete,
    /// The step to tell; the ticking goes on after the interval.
    Step(usize),
}

impl SimTimerState {
    /// A timer at step zero that does not run.
    pub fn new() -> (r: SimTimerState)
        ensures
            r == (SimTimerState { current_step: 0, running: false, total_steps: 0 }),
    {
        SimTimerState { current_step: 0, running: false, total_steps: 0 }
    }

    /// Starts the timer for `total_steps` steps, from the step at which it
    /// stands. Tells whether it was started; a timer that runs is left as
    /// it is.
    pub fn start(&mut self, total_steps: usize) -> (r: bool)
        ensures
            r == !old(self).running,
            old(self).running ==> *final(self) == *old(self),
            !old(self).running ==> *final(self) == (SimTimerState {
                current_step: old(self).current_step,
                running: true,
                total_steps,
            }),
    {
        if self.running {
            false
        } else {
            self.running = true;
            self.total_steps = total_steps;
            true
        }
    }

    /// One tick: a timer that does not run tells so; a timer that has told
    /// every step tells that the simulation is complete and stops; and
    /// else the timer tells the step at which it stands and moves to the
    /// next.
    pub fn tick(&mut self) -> (r: TimerTick)
        ensures
            !old(self).running ==> r == TimerTick::Stopped && *final(self) == *old(self),
            old(self).running && old(self).current_step >= old(self).total_steps ==> r
                == TimerTick::Complete && *final(self) == (SimTimerState {
                running: false,
                ..*old(self)
            }),
            old(self).running && old(self).current_step < old(self).total_steps ==> r
                == TimerTick::Step(old(self).current_step) && *final(self) == (SimTimerState {
                current_step: (old(self).current_step + 1) as usize,
                ..*old(self)
            }),
    {
        if !self.running {
            TimerTick::Stopped
        } else if self.current_step >= self.total_steps {
            self.running = false;
            TimerTick::Complete
        } else {
            let step = self.current_step;
            self.current_step = step + 1;
            TimerTick::Step(step)
        }
    }

    /// Stops the timer and puts it back to step zero.
    pub fn reset(&mut self)
        ensures
            *final(self) == (SimTimerState { current_step: 0, running: false, ..*old(self) }),
    {
        self.running = false;
        self.current_step = 0;
    }

    /// Stops the timer at the step at which it stands.
    pub fn stop(&mut self)
        ensures
            *final(self) == (SimTimerState { running: false, ..*old(self) }),
    {
        self.running = false;
    }
}

} // verus!
