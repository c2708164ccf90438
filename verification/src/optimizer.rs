//! The iterative drivers as state machines.
//!
//! A driver alternates numeric work (linearise, solve, score a candidate)
//! with decisions (stop, accept, reject, go on). The numeric work is the
//! caller's; each decision is taken here, from what the numeric work
//! reported. The caller looks at the phase of the state, does the work that
//! the phase names, and reports the outcome as an event.

use vstd::prelude::*;
use crate::linear::LinearSolverType;

verus! {

/// Coarse status of a solve.
#[derive(Clone, Copy, Debug, PartialEq, Eq, Structural)]
pub enum SolverStatus {
    Running,
    /// The gradient fell below its threshold.
    GradientTooSmall,
    /// The step became small against the variables.
    RelativeStepSizeTooSmall,
    /// The error fell below its threshold.
    ErrorTooSmall,
    HitMaxIterations,
}

/// Options shared by the drivers. Thresholds are scalars and are only
/// carried here; comparing an error against them is the caller's work.
#[derive(Clone, Copy, Debug)]
pub struct OptimizerOptions<V> {
    pub max_iteration: usize,
    pub linear_solver_type: LinearSolverType,
    pub verbosity_level: usize,
    pub min_abs_error_decrease_threshold: V,
    pub min_rel_error_decrease_threshold: V,
    pub min_error_threshold: V,
}

impl<V> OptimizerOptions<V> {
    /// The default options around the given thresholds: at most 100
    /// iterations, sparse Cholesky, no diagnostic output.
    pub fn with_thresholds(
        min_abs_error_decrease_threshold: V,
        min_rel_error_decrease_threshold: V,
        min_error_threshold: V,
    ) -> (r: Self)
        ensures
            r.max_iteration == 100,
            r.linear_solver_type == LinearSolverType::SparseCholesky,
            r.verbosity_level == 0,
            r.min_abs_error_decrease_threshold == min_abs_error_decrease_threshold,
            r.min_rel_error_decrease_threshold == min_rel_error_decrease_threshold,
            r.min_error_threshold == min_error_threshold,
    {
        OptimizerOptions {
            max_iteration: 100,
            linear_solver_type: LinearSolverType::SparseCholesky,
            verbosity_level: 0,
            min_abs_error_decrease_threshold,
            min_rel_error_decrease_threshold,
            min_error_threshold,
        }
    }
}

/// Why a solve ended.
#[derive(Clone, Copy, Debug, PartialEq, Eq, Structural)]
pub enum Termination {
    /// The error is below the error threshold.
    ErrorBelowThreshold,
    /// The error changed by less than the absolute threshold.
    AbsoluteDecreaseSmall,
    /// The error changed by less than the relative threshold.
    RelativeDecreaseSmall,
    /// The error is not a number.
    ErrorNotANumber,
    /// The linear system could not be solved.
    SolveFailed,
    /// The iteration limit was reached.
    MaxIterations,
}

impl Termination {
    /// Whether the solve failed: it has no usable result.
    pub open spec fn is_failure(self) -> bool {
        self == Termination::ErrorNotANumber || self == Termination::SolveFailed
    }

    /// Whether the solve converged.
    pub open spec fn is_converged(self) -> bool {
        self == Termination::ErrorBelowThreshold || self == Termination::AbsoluteDecreaseSmall
            || self == Termination::RelativeDecreaseSmall
    }

    /// Whether the solve failed. A failed solve returns no values; every
    /// other ending returns the values reached.
    pub fn failed(self) -> (b: bool)
        ensures
            b == self.is_failure(),
    {
        match self {
            Termination::ErrorNotANumber => true,
            Termination::SolveFailed => true,
            _ => false,
        }
    }

    /// Whether the solve converged.
    pub fn converged(self) -> (b: bool)
        ensures
            b == self.is_converged(),
    {
        match self {
            Termination::ErrorBelowThreshold => true,
            Termination::AbsoluteDecreaseSmall => true,
            Termination::RelativeDecreaseSmall => true,
            _ => false,
        }
    }

    /// The coarse status that the ending amounts to, where it has one.
    pub fn status(self) -> (r: Option<SolverStatus>)
        ensures
            r == match self {
                Termination::ErrorBelowThreshold => Some(SolverStatus::ErrorTooSmall),
                Termination::MaxIterations => Some(SolverStatus::HitMaxIterations),
                _ => None::<SolverStatus>,
            },
    {
        match self {
            Termination::ErrorBelowThreshold => Some(SolverStatus::ErrorTooSmall),
            Termination::MaxIterations => Some(SolverStatus::HitMaxIterations),
            _ => None,
        }
    }
}

/// What the caller found when it compared the current error with the
/// thresholds and with the error before.
#[derive(Clone, Copy, Debug, PartialEq, Eq, Structural)]
pub struct ErrorCheck {
    /// The error is below the error threshold.
    pub below_threshold: bool,
    /// The error is not a number.
    pub is_nan: bool,
    /// The error differs from the error before by less than the absolute
    /// threshold.
    pub abs_decrease_small: bool,
    /// The error differs from the error before, relative to it, by less
    /// than the relative threshold.
    pub rel_decrease_small: bool,
}

/// The ending that `check` calls for, if any. A small error ends the solve
/// as converged, an error that is not a number as failed; stagnation counts
/// only where there is an error before to compare with.
pub open spec fn verdict_of(check: ErrorCheck, compare_with_last: bool) -> Option<Termination> {
    if check.below_threshold {
        Some(Termination::ErrorBelowThreshold)
    } else if check.is_nan {
        Some(Termination::ErrorNotANumber)
    } else if compare_with_last && check.abs_decrease_small {
        Some(Termination::AbsoluteDecreaseSmall)
    } else if compare_with_last && check.rel_decrease_small {
        Some(Termination::RelativeDecreaseSmall)
    } else {
        None
    }
}

/// The ending that `check` calls for, if any.
pub fn verdict(check: ErrorCheck, compare_with_last: bool) -> (r: Option<Termination>)
    ensures
        r == verdict_of(check, compare_with_last),
{
    if check.below_threshold {
        Some(Termination::ErrorBelowThreshold)
    } else if check.is_nan {
        Some(Termination::ErrorNotANumber)
    } else if compare_with_last && check.abs_decrease_small {
        Some(Termination::AbsoluteDecreaseSmall)
    } else if compare_with_last && check.rel_decrease_small {
        Some(Termination::RelativeDecreaseSmall)
    } else {
        None
    }
}

/// What the Gauss-Newton driver waits for.
#[derive(Clone, Copy, Debug, PartialEq, Eq, Structural)]
pub enum GaussNewtonPhase {
    /// Evaluate residual and Jacobian at the current values and report how
    /// the error compares.
    Linearize,
    /// Solve the linearised system for a step.
    Solve,
    /// Apply the step to the variables.
    Apply,
    /// The solve has ended.
    Done(Termination),
}

/// What the caller reports to the Gauss-Newton driver.
#[derive(Clone, Copy, Debug, PartialEq, Eq, Structural)]
pub enum GaussNewtonEvent {
    /// Residual and Jacobian were evaluated.
    Linearized(ErrorCheck),
    /// The linear solver returned a step.
    Solved,
    /// The linear solver failed.
    SolveFailed,
    /// The step was applied.
    Applied,
}

/// State of a Gauss-Newton solve: the number of steps applied so far, the
/// limit on that number, and what the driver waits for.
#[derive(Clone, Copy, Debug, PartialEq, Eq, Structural)]
pub struct GaussNewtonState {
    pub iteration: usize,
    pub max_iteration: usize,
    pub phase: GaussNewtonPhase,
}

impl GaussNewtonState {
    /// The iteration count respects the limit, and a solve that goes on has
    /// iterations left.
    pub open spec fn wf(self) -> bool {
        &&& self.iteration <= self.max_iteration
        &&& !(self.phase is Done) ==> self.iteration < self.max_iteration
    }

    /// Whether the solve has ended.
    pub open spec fn is_done(self) -> bool {
        self.phase is Done
    }

    /// Whether `event` is what the state waits for.
    pub open spec fn expects(self, event: GaussNewtonEvent) -> bool {
        match (self.phase, event) {
            (GaussNewtonPhase::Linearize, GaussNewtonEvent::Linearized(_)) => true,
            (GaussNewtonPhase::Solve, GaussNewtonEvent::Solved) => true,
            (GaussNewtonPhase::Solve, GaussNewtonEvent::SolveFailed) => true,
            (GaussNewtonPhase::Apply, GaussNewtonEvent::Applied) => true,
            _ => false,
        }
    }

    /// The state after `event`. An event that the state does not wait for
    /// leaves it as it is.
    pub open spec fn next(self, event: GaussNewtonEvent) -> GaussNewtonState {
        match (self.phase, event) {
            (GaussNewtonPhase::Linearize, GaussNewtonEvent::Linearized(check)) => match verdict_of(
                check,
                self.iteration > 0,
            ) {
                Some(ending) => GaussNewtonState { phase: GaussNewtonPhase::Done(ending), ..self },
                None => GaussNewtonState { phase: GaussNewtonPhase::Solve, ..self },
            },
            (GaussNewtonPhase::Solve, GaussNewtonEvent::Solved) => GaussNewtonState {
                phase: GaussNewtonPhase::Apply,
                ..self
            },
            (GaussNewtonPhase::Solve, GaussNewtonEvent::SolveFailed) => GaussNewtonState {
                phase: GaussNewtonPhase::Done(Termination::SolveFailed),
                ..self
            },
            (GaussNewtonPhase::Apply, GaussNewtonEvent::Applied) => if self.iteration + 1
                >= self.max_iteration {
                GaussNewtonState {
                    iteration: self.max_iteration,
                    phase: GaussNewtonPhase::Done(Termination::MaxIterations),
                    ..self
                }
            } else {
                GaussNewtonState {
                    iteration: (self.iteration + 1) as usize,
                    phase: GaussNewtonPhase::Linearize,
                    ..self
                }
            },
            _ => self,
        }
    }

    /// An upper bound on the number of expected events that the solve can
    /// still take.
    pub open spec fn remaining(self) -> nat {
        match self.phase {
            GaussNewtonPhase::Done(_) => 0,
            GaussNewtonPhase::Linearize => (3 * (self.max_iteration - self.iteration)) as nat,
            GaussNewtonPhase::Solve => (3 * (self.max_iteration - self.iteration) - 1) as nat,
            GaussNewtonPhase::Apply => (3 * (self.max_iteration - self.iteration) - 2) as nat,
        }
    }
}

/// The Gauss-Newton driver: every step that the linear solver returns is
/// applied.
#[derive(Clone, Copy, Debug)]
pub struct GaussNewtonOptimizer {}

impl GaussNewtonOptimizer {
    pub fn new() -> Self {
        GaussNewtonOptimizer {  }
    }

    /// The state in which a solve of at most `max_iteration` steps begins.
    /// With no step allowed the solve has ended before it began.
    pub fn start(&self, max_iteration: usize) -> (state: GaussNewtonState)
        ensures
            state.wf(),
            state.iteration == 0,
            state.max_iteration == max_iteration,
            state.phase == if max_iteration == 0 {
                GaussNewtonPhase::Done(Termination::MaxIterations)
            } else {
                GaussNewtonPhase::Linearize
            },
    {
        GaussNewtonState {
            iteration: 0,
            max_iteration,
            phase: if max_iteration == 0 {
                GaussNewtonPhase::Done(Termination::MaxIterations)
            } else {
                GaussNewtonPhase::Linearize
            },
        }
    }

    /// The state after `event`.
    pub fn step(&self, state: GaussNewtonState, event: GaussNewtonEvent) -> (r: GaussNewtonState)
        requires
            state.wf(),
        ensures
            r == state.next(event),
            r.wf(),
    {
        match (state.phase, event) {
            (GaussNewtonPhase::Linearize, GaussNewtonEvent::Linearized(check)) => {
                match verdict(check, state.iteration > 0) {
                    Some(ending) => GaussNewtonState {
                        iteration: state.iteration,
                        max_iteration: state.max_iteration,
                        phase: GaussNewtonPhase::Done(ending),
                    },
                    None => GaussNewtonState {
                        iteration: state.iteration,
                        max_iteration: state.max_iteration,
                        phase: GaussNewtonPhase::Solve,
                    },
                }
            },
            (GaussNewtonPhase::Solve, GaussNewtonEvent::Solved) => GaussNewtonState {
                iteration: state.iteration,
                max_iteration: state.max_iteration,
                phase: GaussNewtonPhase::Apply,
            },
            (GaussNewtonPhase::Solve, GaussNewtonEvent::SolveFailed) => GaussNewtonState {
                iteration: state.iteration,
                max_iteration: state.max_iteration,
                phase: GaussNewtonPhase::Done(Termination::SolveFailed),
            },
            (GaussNewtonPhase::Apply, GaussNewtonEvent::Applied) => {
                if state.iteration + 1 >= state.max_iteration {
                    GaussNewtonState {
                        iteration: state.max_iteration,
                        max_iteration: state.max_iteration,
                        phase: GaussNewtonPhase::Done(Termination::MaxIterations),
                    }
                } else {
                    GaussNewtonState {
                        iteration: state.iteration + 1,
                        max_iteration: state.max_iteration,
                        phase: GaussNewtonPhase::Linearize,
                    }
                }
            },
            _ => state,
        }
    }
}

impl Default for GaussNewtonOptimizer {
    fn default() -> Self {
        GaussNewtonOptimizer {  }
    }
}

/// A Gauss-Newton solve that has ended stays as it is.
pub proof fn lemma_gauss_newton_done_is_final(state: GaussNewtonState, event: GaussNewtonEvent)
    requires
        state.is_done(),
    ensures
        state.next(event) == state,
{
}

/// Every expected event brings a Gauss-Newton solve closer to its end, never
/// takes the iteration count past the limit or back, and keeps the limit; so
/// a solve of at most `max_iteration` steps ends after at most
/// `3 * max_iteration` expected events.
pub proof fn lemma_gauss_newton_progress(state: GaussNewtonState, event: GaussNewtonEvent)
    requires
        state.wf(),
    ensures
        state.next(event).wf(),
        state.next(event).max_iteration == state.max_iteration,
        state.iteration <= state.next(event).iteration,
        state.expects(event) ==> state.next(event).remaining() < state.remaining(),
        !state.expects(event) ==> state.next(event) == state,
        state.remaining() <= 3 * (state.max_iteration - state.iteration),
{
}

/// Whether a Gauss-Newton solve in `state` waits for each of `events` in
/// turn.
pub open spec fn gauss_newton_accepts(
    state: GaussNewtonState,
    events: Seq<GaussNewtonEvent>,
) -> bool
    decreases events.len(),
{
    events.len() > 0 ==> state.expects(events[0]) && gauss_newton_accepts(
        state.next(events[0]),
        events.drop_first(),
    )
}

/// A Gauss-Newton solve of at most `max_iteration` steps cannot be fed more
/// than `3 * max_iteration` events that it waits for: after that many at
/// the latest it has ended.
pub proof fn lemma_gauss_newton_terminates(state: GaussNewtonState, events: Seq<GaussNewtonEvent>)
    requires
        state.wf(),
        gauss_newton_accepts(state, events),
    ensures
        events.len() <= state.remaining(),
        events.len() <= 3 * (state.max_iteration - state.iteration),
    decreases events.len(),
{
    lemma_gauss_newton_progress(state, GaussNewtonEvent::Solved);
    if events.len() > 0 {
        lemma_gauss_newton_progress(state, events[0]);
        lemma_gauss_newton_terminates(state.next(events[0]), events.drop_first());
    }
}

/// A linear solve that fails, or an error that is not a number and not
/// below the threshold, ends a Gauss-Newton solve as failed.
pub proof fn lemma_gauss_newton_failure_stops(state: GaussNewtonState, check: ErrorCheck)
    ensures
        state.phase == GaussNewtonPhase::Solve ==> state.next(GaussNewtonEvent::SolveFailed).phase
            == GaussNewtonPhase::Done(Termination::SolveFailed),
        state.phase == GaussNewtonPhase::Linearize && check.is_nan && !check.below_threshold
            ==> state.next(GaussNewtonEvent::Linearized(check)).phase == GaussNewtonPhase::Done(
            Termination::ErrorNotANumber,
        ),
        state.phase == GaussNewtonPhase::Linearize && check.below_threshold ==> state.next(
            GaussNewtonEvent::Linearized(check),
        ).phase == GaussNewtonPhase::Done(Termination::ErrorBelowThreshold),
        state.phase == GaussNewtonPhase::Solve ==> state.next(GaussNewtonEvent::Solved).phase
            == GaussNewtonPhase::Apply,
{
}

/// What the Levenberg-Marquardt driver waits for.
#[derive(Clone, Copy, Debug, PartialEq, Eq, Structural)]
pub enum LevenbergMarquardtPhase {
    /// Evaluate residual and Jacobian at the current values and form the
    /// scaled normal equations.
    Linearize,
    /// Regularise the diagonal with the current damping and solve for a
    /// step.
    Solve,
    /// Apply the step to a copy of the variables, evaluate the residual
    /// there and report the gain.
    Score,
    /// The solve has ended.
    Done(Termination),
}

/// What became of the step that was scored last.
#[derive(Clone, Copy, Debug, PartialEq, Eq, Structural)]
pub enum StepDecision {
    /// No step was scored yet.
    Pending,
    /// The candidate replaces the variables; the damping shrinks and its
    /// growth factor is reset.
    Accepted,
    /// The variables stay; the damping grows by its growth factor, and the
    /// growth factor doubles.
    Rejected,
}

/// What the caller reports to the Levenberg-Marquardt driver.
#[derive(Clone, Copy, Debug, PartialEq, Eq, Structural)]
pub enum LevenbergMarquardtEvent {
    /// Residual and Jacobian were evaluated.
    Linearized,
    /// The linear solver returned a step.
    Solved,
    /// The linear solver failed.
    SolveFailed,
    /// The candidate was scored: whether the gain ratio is positive, and how
    /// the candidate's error compares.
    Scored { gain_positive: bool, check: ErrorCheck },
}

/// State of a Levenberg-Marquardt solve: the number of steps scored so far,
/// the limit on that number, what the driver waits for, and what became of
/// the last scored step.
#[derive(Clone, Copy, Debug, PartialEq, Eq, Structural)]
pub struct LevenbergMarquardtState {
    pub iteration: usize,
    pub max_iteration: usize,
    pub phase: LevenbergMarquardtPhase,
    pub last_step: StepDecision,
}

impl LevenbergMarquardtState {
    /// The iteration count respects the limit, and a solve that goes on has
    /// iterations left.
    pub open spec fn wf(self) -> bool {
        &&& self.iteration <= self.max_iteration
        &&& !(self.phase is Done) ==> self.iteration < self.max_iteration
    }

    /// Whether the solve has ended.
    pub open spec fn is_done(self) -> bool {
        self.phase is Done
    }

    /// Whether `event` is what the state waits for.
    pub open spec fn expects(self, event: LevenbergMarquardtEvent) -> bool {
        match (self.phase, event) {
            (LevenbergMarquardtPhase::Linearize, LevenbergMarquardtEvent::Linearized) => true,
            (LevenbergMarquardtPhase::Solve, LevenbergMarquardtEvent::Solved) => true,
            (LevenbergMarquardtPhase::Solve, LevenbergMarquardtEvent::SolveFailed) => true,
            (LevenbergMarquardtPhase::Score, LevenbergMarquardtEvent::Scored { .. }) => true,
            _ => false,
        }
    }

    /// The phase after a scored step: an accepted step whose error calls for
    /// an ending ends the solve; otherwise the solve ends where the limit is
    /// reached, linearises anew after an accepted step, and solves again
    /// with the same linearisation after a rejected one.
    pub open spec fn phase_after_score(self, gain_positive: bool, check: ErrorCheck)
        -> LevenbergMarquardtPhase {
        if gain_positive && verdict_of(check, true) is Some {
            LevenbergMarquardtPhase::Done(verdict_of(check, true)->Some_0)
        } else if self.iteration + 1 >= self.max_iteration {
            LevenbergMarquardtPhase::Done(Termination::MaxIterations)
        } else if gain_positive {
            LevenbergMarquardtPhase::Linearize
        } else {
            LevenbergMarquardtPhase::Solve
        }
    }

    /// The state after `event`. An event that the state does not wait for
    /// leaves it as it is.
    pub open spec fn next(self, event: LevenbergMarquardtEvent) -> LevenbergMarquardtState {
        match (self.phase, event) {
            (
                LevenbergMarquardtPhase::Linearize,
                LevenbergMarquardtEvent::Linearized,
            ) => LevenbergMarquardtState { phase: LevenbergMarquardtPhase::Solve, ..self },
            (
                LevenbergMarquardtPhase::Solve,
                LevenbergMarquardtEvent::Solved,
            ) => LevenbergMarquardtState { phase: LevenbergMarquardtPhase::Score, ..self },
            (
                LevenbergMarquardtPhase::Solve,
                LevenbergMarquardtEvent::SolveFailed,
            ) => LevenbergMarquardtState {
                phase: LevenbergMarquardtPhase::Done(Termination::SolveFailed),
                ..self
            },
            (
                LevenbergMarquardtPhase::Score,
                LevenbergMarquardtEvent::Scored { gain_positive, check },
            ) => LevenbergMarquardtState {
                iteration: (self.iteration + 1) as usize,
                max_iteration: self.max_iteration,
                phase: self.phase_after_score(gain_positive, check),
                last_step: if gain_positive {
                    StepDecision::Accepted
                } else {
                    StepDecision::Rejected
                },
            },
            _ => self,
        }
    }

    /// An upper bound on the number of expected events that the solve can
    /// still take.
    pub open spec fn remaining(self) -> nat {
        match self.phase {
            LevenbergMarquardtPhase::Done(_) => 0,
            LevenbergMarquardtPhase::Linearize => (3 * (self.max_iteration - self.iteration))
                as nat,
            LevenbergMarquardtPhase::Solve => (3 * (self.max_iteration - self.iteration) - 1)
                as nat,
            LevenbergMarquardtPhase::Score => (3 * (self.max_iteration - self.iteration) - 2)
                as nat,
        }
    }
}

/// The Levenberg-Marquardt driver: a step is kept only where it lowers the
/// error. The three scalars bound the regularised diagonal and set the
/// initial damping; they are carried here for the caller's numeric work.
#[derive(Clone, Copy, Debug)]
pub struct LevenbergMarquardtOptimizer<V> {
    pub min_diagonal: V,
    pub max_diagonal: V,
    pub initial_trust_region_radius: V,
}

impl<V> LevenbergMarquardtOptimizer<V> {
    pub fn new(min_diagonal: V, max_diagonal: V, initial_trust_region_radius: V) -> (r: Self)
        ensures
            r.min_diagonal == min_diagonal,
            r.max_diagonal == max_diagonal,
            r.initial_trust_region_radius == initial_trust_region_radius,
    {
        LevenbergMarquardtOptimizer { min_diagonal, max_diagonal, initial_trust_region_radius }
    }

    /// The state in which a solve of at most `max_iteration` scored steps
    /// begins. With no step allowed the solve has ended before it began.
    pub fn start(&self, max_iteration: usize) -> (state: LevenbergMarquardtState)
        ensures
            state.wf(),
            state.iteration == 0,
            state.max_iteration == max_iteration,
            state.last_step == StepDecision::Pending,
            state.phase == if max_iteration == 0 {
                LevenbergMarquardtPhase::Done(Termination::MaxIterations)
            } else {
                LevenbergMarquardtPhase::Linearize
            },
    {
        LevenbergMarquardtState {
            iteration: 0,
            max_iteration,
            phase: if max_iteration == 0 {
                LevenbergMarquardtPhase::Done(Termination::MaxIterations)
            } else {
                LevenbergMarquardtPhase::Linearize
            },
            last_step: StepDecision::Pending,
        }
    }

    /// The state after `event`.
    pub fn step(&self, state: LevenbergMarquardtState, event: LevenbergMarquardtEvent) -> (r:
        LevenbergMarquardtState)
        requires
            state.wf(),
        ensures
            r == state.next(event),
            r.wf(),
    {
        match (state.phase, event) {
            (LevenbergMarquardtPhase::Linearize, LevenbergMarquardtEvent::Linearized) => {
                LevenbergMarquardtState {
                    iteration: state.iteration,
                    max_iteration: state.max_iteration,
                    phase: LevenbergMarquardtPhase::Solve,
                    last_step: state.last_step,
                }
            },
            (LevenbergMarquardtPhase::Solve, LevenbergMarquardtEvent::Solved) => {
                LevenbergMarquardtState {
                    iteration: state.iteration,
                    max_iteration: state.max_iteration,
                    phase: LevenbergMarquardtPhase::Score,
                    last_step: state.last_step,
                }
            },
            (LevenbergMarquardtPhase::Solve, LevenbergMarquardtEvent::SolveFailed) => {
                LevenbergMarquardtState {
                    iteration: state.iteration,
                    max_iteration: state.max_iteration,
                    phase: LevenbergMarquardtPhase::Done(Termination::SolveFailed),
                    last_step: state.last_step,
                }
            },
            (
                LevenbergMarquardtPhase::Score,
                LevenbergMarquardtEvent::Scored { gain_positive, check },
            ) => {
                let ending = if gain_positive {
                    verdict(check, true)
                } else {
                    None
                };
                let phase = match ending {
                    Some(ending) => LevenbergMarquardtPhase::Done(ending),
                    None => if state.iteration + 1 >= state.max_iteration {
                        LevenbergMarquardtPhase::Done(Termination::MaxIterations)
                    } else if gain_positive {
                        LevenbergMarquardtPhase::Linearize
                    } else {
                        LevenbergMarquardtPhase::Solve
                    },
                };
                LevenbergMarquardtState {
                    iteration: state.iteration + 1,
                    max_iteration: state.max_iteration,
                    phase,
                    last_step: if gain_positive {
                        StepDecision::Accepted
                    } else {
                        StepDecision::Rejected
                    },
                }
            },
            _ => state,
        }
    }
}

/// A Levenberg-Marquardt solve that has ended stays as it is.
pub proof fn lemma_levenberg_marquardt_done_is_final(
    state: LevenbergMarquardtState,
    event: LevenbergMarquardtEvent,
)
    requires
        state.is_done(),
    ensures
        state.next(event) == state,
{
}

/// Every expected event brings a Levenberg-Marquardt solve closer to its
/// end, never takes the iteration count past the limit or back, and keeps
/// the limit; so a solve of at most `max_iteration` scored steps ends after
/// at most `3 * max_iteration` expected events.
pub proof fn lemma_levenberg_marquardt_progress(
    state: LevenbergMarquardtState,
    event: LevenbergMarquardtEvent,
)
    requires
        state.wf(),
    ensures
        state.next(event).wf(),
        state.next(event).max_iteration == state.max_iteration,
        state.iteration <= state.next(event).iteration,
        state.expects(event) ==> state.next(event).remaining() < state.remaining(),
        !state.expects(event) ==> state.next(event) == state,
        state.remaining() <= 3 * (state.max_iteration - state.iteration),
{
}

/// Whether a Levenberg-Marquardt solve in `state` waits for each of
/// `events` in turn.
pub open spec fn levenberg_marquardt_accepts(
    state: LevenbergMarquardtState,
    events: Seq<LevenbergMarquardtEvent>,
) -> bool
    decreases events.len(),
{
    events.len() > 0 ==> state.expects(events[0]) && levenberg_marquardt_accepts(
        state.next(events[0]),
        events.drop_first(),
    )
}

/// A Levenberg-Marquardt solve of at most `max_iteration` scored steps
/// cannot be fed more than `3 * max_iteration` events that it waits for:
/// after that many at the latest it has ended.
pub proof fn lemma_levenberg_marquardt_terminates(
    state: LevenbergMarquardtState,
    events: Seq<LevenbergMarquardtEvent>,
)
    requires
        state.wf(),
        levenberg_marquardt_accepts(state, events),
    ensures
        events.len() <= state.remaining(),
        events.len() <= 3 * (state.max_iteration - state.iteration),
    decreases events.len(),
{
    lemma_levenberg_marquardt_progress(state, LevenbergMarquardtEvent::Solved);
    if events.len() > 0 {
        lemma_levenberg_marquardt_progress(state, events[0]);
        lemma_levenberg_marquardt_terminates(state.next(events[0]), events.drop_first());
    }
}

/// After a scored step the driver linearises anew only where the step was
/// accepted; a rejected step never ends the solve as converged or failed;
/// and a failed linear solve ends it as failed.
pub proof fn lemma_levenberg_marquardt_decisions(
    state: LevenbergMarquardtState,
    gain_positive: bool,
    check: ErrorCheck,
)
    requires
        state.wf(),
    ensures
        state.phase == LevenbergMarquardtPhase::Score ==> {
            let after = state.next(LevenbergMarquardtEvent::Scored { gain_positive, check });
            &&& after.phase == LevenbergMarquardtPhase::Linearize ==> gain_positive
            &&& after.phase == LevenbergMarquardtPhase::Solve ==> !gain_positive
            &&& after.last_step == if gain_positive {
                StepDecision::Accepted
            } else {
                StepDecision::Rejected
            }
            &&& !gain_positive ==> after.phase == LevenbergMarquardtPhase::Solve || after.phase
                == LevenbergMarquardtPhase::Done(Termination::MaxIterations)
        },
        state.phase == LevenbergMarquardtPhase::Solve ==> state.next(
            LevenbergMarquardtEvent::SolveFailed,
        ).phase == LevenbergMarquardtPhase::Done(Termination::SolveFailed),
{
}

} // verus!
