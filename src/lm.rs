//! Decisions of the Levenberg-Marquardt optimiser: which state to keep,
//! how the damping moves, and when to stop.
use vstd::prelude::*;

verus! {

/// Iterations after which the optimisation stops whatever happens.
pub const MAX_ITERATIONS: usize = 20;

/// The damping coefficient is `10^exponent`; each level starts at `0.1`.
pub const INITIAL_LM_EXPONENT: i32 = -1;

/// Whether the optimiser takes another step.
#[derive(Clone, Copy, Debug, PartialEq, Eq, Structural)]
pub enum Continue {
    Forward,
    Stop,
}

/// What became of a step once its energy was evaluated.
#[derive(Clone, Copy, Debug, PartialEq, Eq, Structural)]
pub enum StepOutcome {
    /// The energy went up: the step is rejected.
    Uphill,
    /// The energy did not go up; `sufficient` tells whether it dropped by more
    /// than the convergence tolerance.
    Downhill { sufficient: bool },
}

/// Which state the optimiser keeps after a step.
#[derive(Clone, Copy, Debug, PartialEq, Eq, Structural)]
pub enum Kept {
    Previous,
    New,
}

/// The decision after a step: the state kept, the new damping exponent and
/// whether to go on.
#[derive(Clone, Copy, Debug, PartialEq, Eq, Structural)]
pub struct Decision {
    pub kept: Kept,
    pub lm_exponent: i32,
    pub continuation: Continue,
}

/// The decision after iteration `nb_iter`, as `stop_criterion` makes it.
pub open spec fn stop_criterion_spec(nb_iter: usize, lm_exponent: i32, outcome: StepOutcome) -> Decision {
    if nb_iter > MAX_ITERATIONS {
        match outcome {
            StepOutcome::Uphill => Decision {
                kept: Kept::Previous,
                lm_exponent,
                continuation: Continue::Stop,
            },
            StepOutcome::Downhill { .. } => Decision {
                kept: Kept::New,
                lm_exponent,
                continuation: Continue::Stop,
            },
        }
    } else {
        match outcome {
            StepOutcome::Uphill => Decision {
                kept: Kept::Previous,
                lm_exponent: (lm_exponent + 1) as i32,
                continuation: Continue::Forward,
            },
            StepOutcome::Downhill { sufficient } => Decision {
                kept: Kept::New,
                lm_exponent: (lm_exponent - 1) as i32,
                continuation: if sufficient {
                    Continue::Forward
                } else {
                    Continue::Stop
                },
            },
        }
    }
}

/// The decision after iteration `nb_iter`. Past `MAX_ITERATIONS` it stops,
/// keeping the step if it was accepted, damping unchanged. Otherwise an uphill
/// step is dropped and the damping multiplied by 10; an accepted one is kept,
/// the damping divided by 10, and it goes on only when the energy dropped by
/// more than the tolerance.
pub fn stop_criterion(nb_iter: usize, lm_exponent: i32, outcome: StepOutcome) -> (r: Decision)
    requires
        i32::MIN < lm_exponent < i32::MAX,
    ensures
        r == stop_criterion_spec(nb_iter, lm_exponent, outcome),
{
    let too_many_iterations = nb_iter > MAX_ITERATIONS;
    match outcome {
        StepOutcome::Uphill => {
            if too_many_iterations {
                Decision { kept: Kept::Previous, lm_exponent, continuation: Continue::Stop }
            } else {
                Decision {
                    kept: Kept::Previous,
                    lm_exponent: lm_exponent + 1,
                    continuation: Continue::Forward,
                }
            }
        },
        StepOutcome::Downhill { sufficient } => {
            if too_many_iterations {
                Decision { kept: Kept::New, lm_exponent, continuation: Continue::Stop }
            } else {
                let continuation = if sufficient {
                    Continue::Forward
                } else {
                    Continue::Stop
                };
                Decision { kept: Kept::New, lm_exponent: lm_exponent - 1, continuation }
            }
        },
    }
}

/// An uphill step is rejected: the previous state is kept whatever the
/// iteration, and below the cap the damping is multiplied by 10 and the
/// optimiser goes on.
pub proof fn lemma_uphill_keeps_previous(nb_iter: usize, lm_exponent: i32)
    requires
        i32::MIN < lm_exponent < i32::MAX,
    ensures
        stop_criterion_spec(nb_iter, lm_exponent, StepOutcome::Uphill).kept == Kept::Previous,
        nb_iter <= MAX_ITERATIONS ==> stop_criterion_spec(
            nb_iter,
            lm_exponent,
            StepOutcome::Uphill,
        ).lm_exponent == lm_exponent + 1 && stop_criterion_spec(
            nb_iter,
            lm_exponent,
            StepOutcome::Uphill,
        ).continuation == Continue::Forward,
{
}

/// What happened when the optimiser tried its next step.
#[derive(Clone, Copy, Debug, PartialEq, Eq, Structural)]
pub enum StepEvent {
    /// No step could be computed (the damped Hessian is not positive definite).
    NoStep,
    /// A step was computed, applied and evaluated.
    Evaluated(StepOutcome),
}

/// What the optimiser does next.
#[derive(Clone, Copy, Debug, PartialEq, Eq, Structural)]
pub enum Action {
    /// Give up at this level: no result.
    Fail,
    /// Keep the given state and compute another step from it.
    Step(Kept),
    /// Keep the given state and end with it.
    Done(Kept),
}

/// Iteration count and damping of the optimisation at one level.
#[derive(Clone, Copy, Debug, PartialEq, Eq, Structural)]
pub struct LmControl {
    pub nb_iter: usize,
    pub lm_exponent: i32,
}

impl LmControl {
    /// The iteration count stays within the cap and the damping exponent
    /// has moved by at most one per iteration.
    pub open spec fn wf(&self) -> bool {
        &&& self.nb_iter <= MAX_ITERATIONS
        &&& INITIAL_LM_EXPONENT - self.nb_iter <= self.lm_exponent <= INITIAL_LM_EXPONENT
            + self.nb_iter
    }

    /// The control at the start of a level.
    pub fn new() -> (r: LmControl)
        ensures
            r.wf(),
            r.nb_iter == 0,
            r.lm_exponent == INITIAL_LM_EXPONENT,
    {
        LmControl { nb_iter: 0, lm_exponent: INITIAL_LM_EXPONENT }
    }

    /// Counts one iteration and decides on its event: no step fails the level;
    /// an evaluated step goes through `stop_criterion`.
    pub fn advance(self, event: StepEvent) -> (r: (LmControl, Action))
        requires
            self.wf(),
        ensures
            r.0.nb_iter == self.nb_iter + 1,
            event is NoStep ==> r.1 == Action::Fail && r.0.lm_exponent == self.lm_exponent,
            event matches StepEvent::Evaluated(outcome) ==> {
                let d = stop_criterion_spec((self.nb_iter + 1) as usize, self.lm_exponent, outcome);
                &&& r.0.lm_exponent == d.lm_exponent
                &&& r.1 == if d.continuation == Continue::Forward {
                    Action::Step(d.kept)
                } else {
                    Action::Done(d.kept)
                }
            },
            r.1 is Step ==> r.0.wf(),
    {
        let nb_iter = self.nb_iter + 1;
        match event {
            StepEvent::NoStep => (LmControl { nb_iter, lm_exponent: self.lm_exponent }, Action::Fail),
            StepEvent::Evaluated(outcome) => {
                let d = stop_criterion(nb_iter, self.lm_exponent, outcome);
                let action = match d.continuation {
                    Continue::Forward => Action::Step(d.kept),
                    Continue::Stop => Action::Done(d.kept),
                };
                (LmControl { nb_iter, lm_exponent: d.lm_exponent }, action)
            },
        }
    }
}

} // verus!
