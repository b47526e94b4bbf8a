//! A gate that lets its systems run once per fixed step of accumulated time,
//! however coarse or fine the ticks of the outer loop are.

use vstd::prelude::*;
use vstd::arithmetic::div_mod::{lemma_fundamental_div_mod, lemma_fundamental_div_mod_converse};
use crate::state::{AppState, Pass, RunCriteria};

verus! {

/// The step, in nanoseconds, at which the snake moves: 150 milliseconds.
pub const MOVE_STEP_NANOS: u64 = 150_000_000;

/// Number of runs that fall due when `elapsed` is added to an accumulator
/// that holds `accumulated`.
pub open spec fn runs_due(accumulated: nat, step: nat, elapsed: nat) -> nat {
    (accumulated + elapsed) / step
}

/// What stays in the accumulator once the runs that fell due were taken out.
pub open spec fn left_over(accumulated: nat, step: nat, elapsed: nat) -> nat {
    (accumulated + elapsed) % step
}

/// Sum of the elapsed times of a sequence of ticks.
pub open spec fn total_time(ticks: Seq<nat>) -> nat
    decreases ticks.len(),
{
    if ticks.len() == 0 {
        0
    } else {
        total_time(ticks.drop_last()) + ticks.last()
    }
}

/// Number of runs that a gate which starts empty has let through after the
/// given ticks.
pub open spec fn total_runs(step: nat, ticks: Seq<nat>) -> nat
    decreases ticks.len(),
{
    if ticks.len() == 0 {
        0
    } else {
        total_runs(step, ticks.drop_last()) + runs_due(
            residue(step, ticks.drop_last()),
            step,
            ticks.last(),
        )
    }
}

/// What the accumulator of a gate which starts empty holds after the given
/// ticks.
pub open spec fn residue(step: nat, ticks: Seq<nat>) -> nat
    decreases ticks.len(),
{
    if ticks.len() == 0 {
        0
    } else {
        left_over(residue(step, ticks.drop_last()), step, ticks.last())
    }
}

/// An accumulator of elapsed time with a fixed step. Time is counted in whole
/// units; the accumulator always holds less than one step.
pub struct FixedStep {
    step: u64,
    accumulator: u64,
}

impl FixedStep {
    #[verifier::type_invariant]
    closed spec fn inv(&self) -> bool {
        0 < self.step && self.accumulator < self.step
    }

    /// The step size.
    pub closed spec fn spec_step(&self) -> nat {
        self.step as nat
    }

    /// The time accumulated and not yet used up by a run.
    pub closed spec fn spec_accumulator(&self) -> nat {
        self.accumulator as nat
    }

    /// A gate with the given step and nothing accumulated. A step of zero
    /// would never let a tick end, and is refused.
    pub fn new(step: u64) -> (res: Option<FixedStep>)
        ensures
            step == 0 <==> res is None,
            res matches Some(gate) ==> gate.spec_step() == step && gate.spec_accumulator() == 0,
    {
        if step == 0 {
            None
        } else {
            Some(FixedStep { step, accumulator: 0 })
        }
    }

    /// Returns the step size, which is never zero.
    pub fn step(&self) -> (res: u64)
        ensures
            res == self.spec_step(),
            res > 0,
    {
        proof {
            use_type_invariant(self);
        }
        self.step
    }

    /// Returns the time accumulated and not yet used up, which is always
    /// less than one step.
    pub fn accumulator(&self) -> (res: u64)
        ensures
            res == self.spec_accumulator(),
            res < self.spec_step(),
    {
        proof {
            use_type_invariant(self);
        }
        self.accumulator
    }

    /// Adds the time elapsed in one tick and returns how often the gated
    /// systems run in this tick: once for every whole step that the
    /// accumulator holds, each run taking one step out of it.
    pub fn advance(&mut self, elapsed: u64) -> (runs: u64)
        ensures
            final(self).spec_step() == old(self).spec_step(),
            runs == runs_due(old(self).spec_accumulator(), old(self).spec_step(), elapsed as nat),
            final(self).spec_accumulator() == left_over(
                old(self).spec_accumulator(),
                old(self).spec_step(),
                elapsed as nat,
            ),
    {
        proof {
            use_type_invariant(&*self);
        }
        let step = self.step;
        let acc = self.accumulator;
        let whole = elapsed / step;
        let part = elapsed % step;
        proof {
            lemma_fundamental_div_mod(elapsed as int, step as int);
        }
        if acc >= step - part {
            proof {
                assert(step as int * (whole as int + 1) == step as int * whole as int + step as int)
                    by (nonlinear_arith);
                assert((whole as int + 1) * step as int == step as int * (whole as int + 1))
                    by (nonlinear_arith);
                if whole == u64::MAX {
                    assert(step as int * whole as int >= whole as int) by (nonlinear_arith)
                        requires
                            step >= 1,
                            whole >= 0,
                    ;
                }
                lemma_fundamental_div_mod_converse(
                    acc as int + elapsed as int,
                    step as int,
                    whole as int + 1,
                    acc as int - (step as int - part as int),
                );
            }
            self.accumulator = acc - (step - part);
            whole + 1
        } else {
            proof {
                assert(whole as int * step as int == step as int * whole as int) by (nonlinear_arith);
                lemma_fundamental_div_mod_converse(
                    acc as int + elapsed as int,
                    step as int,
                    whole as int,
                    acc as int + part as int,
                );
            }
            self.accumulator = acc + part;
            whole
        }
    }
}

/// A gate that starts empty and has seen ticks that add up to `t` has let
/// through exactly `t / step` runs, rounded down, and holds `t % step`,
/// however the time was split into ticks.
pub proof fn lemma_fixed_step_totals(step: nat, ticks: Seq<nat>)
    requires
        step > 0,
    ensures
        total_runs(step, ticks) == total_time(ticks) / step,
        residue(step, ticks) == total_time(ticks) % step,
    decreases ticks.len(),
{
    if ticks.len() > 0 {
        let before = ticks.drop_last();
        lemma_fixed_step_totals(step, before);
        let t = total_time(before) as int;
        let d = ticks.last() as int;
        let s = step as int;
        let a = t % s;
        lemma_fundamental_div_mod(t, s);
        lemma_fundamental_div_mod(a + d, s);
        assert((t / s + (a + d) / s) * s == s * (t / s) + s * ((a + d) / s)) by (nonlinear_arith);
        lemma_fundamental_div_mod_converse(t + d, s, t / s + (a + d) / s, (a + d) % s);
    } else {
        lemma_fundamental_div_mod_converse(0, step as int, 0, 0);
    }
}

/// What the outer loop is to do with the gated systems after it has asked.
#[derive(Clone, Copy, Debug, PartialEq, Eq, Structural)]
pub enum StepAction {
    /// Run the systems once and ask again.
    Run,
    /// Do not run the systems, and ask again.
    Skip,
    /// Do not run the systems; nothing more is due in this tick.
    Rest,
}

/// The runs that are still due in the tick under way. Between ticks nothing
/// is due.
pub struct StepLoop {
    due: u64,
    looping: bool,
}

/// The runs that are due when the loop is asked: those left over from the
/// last answer while a tick is under way, and those that the elapsed time
/// of a new tick makes fall due otherwise.
pub open spec fn due_now(
    due: nat,
    looping: bool,
    accumulated: nat,
    step: nat,
    elapsed: nat,
) -> nat {
    if looping {
        due
    } else {
        runs_due(accumulated, step, elapsed)
    }
}

impl StepLoop {
    #[verifier::type_invariant]
    closed spec fn inv(&self) -> bool {
        !self.looping ==> self.due == 0
    }

    /// The runs that are still due in the tick under way.
    pub closed spec fn spec_due(&self) -> nat {
        self.due as nat
    }

    /// Whether a tick is under way: the last answer asked to be asked again.
    pub closed spec fn spec_looping(&self) -> bool {
        self.looping
    }

    /// A loop between ticks.
    pub fn new() -> (res: StepLoop)
        ensures
            res.spec_due() == 0,
            !res.spec_looping(),
    {
        StepLoop { due: 0, looping: false }
    }

    /// Returns the runs that are still due in the tick under way.
    pub fn due(&self) -> (res: u64)
        ensures
            res == self.spec_due(),
            !self.spec_looping() ==> res == 0,
    {
        proof {
            use_type_invariant(self);
        }
        self.due
    }

    /// Tells whether a tick is under way.
    pub fn looping(&self) -> (res: bool)
        ensures
            res == self.spec_looping(),
    {
        self.looping
    }

    /// Answers the outer loop, which asks before every run.
    ///
    /// The first time it asks in a tick, the time elapsed since the last
    /// tick goes into `clock`, and the runs that fall due are noted. While
    /// runs are due, each answer uses one of them up and asks to be asked
    /// again: the systems run if `criteria` admits the ordinary pass of the
    /// `current` state, and are skipped otherwise. When none is due, the
    /// answer is to rest, and the tick is over. `elapsed` counts only for the
    /// first answer of a tick.
    pub fn poll(
        &mut self,
        clock: &mut FixedStep,
        elapsed: u64,
        criteria: RunCriteria,
        current: AppState,
    ) -> (action: StepAction)
        ensures
            final(clock).spec_step() == old(clock).spec_step(),
            old(self).spec_looping() ==> final(clock).spec_accumulator() == old(
                clock,
            ).spec_accumulator(),
            !old(self).spec_looping() ==> final(clock).spec_accumulator() == left_over(
                old(clock).spec_accumulator(),
                old(clock).spec_step(),
                elapsed as nat,
            ),
            ({
                let due = due_now(
                    old(self).spec_due(),
                    old(self).spec_looping(),
                    old(clock).spec_accumulator(),
                    old(clock).spec_step(),
                    elapsed as nat,
                );
                if due == 0 {
                    &&& action == StepAction::Rest
                    &&& final(self).spec_due() == 0
                    &&& !final(self).spec_looping()
                } else {
                    &&& action == (if criteria.spec_admits(Pass::Update(current)) {
                        StepAction::Run
                    } else {
                        StepAction::Skip
                    })
                    &&& final(self).spec_due() == due - 1
                    &&& final(self).spec_looping()
                }
            }),
    {
        proof {
            use_type_invariant(&*self);
        }
        let due = if self.looping {
            self.due
        } else {
            clock.advance(elapsed)
        };
        if due == 0 {
            self.due = 0;
            self.looping = false;
            StepAction::Rest
        } else {
            self.looping = true;
            self.due = due - 1;
            if criteria.admits(Pass::Update(current)) {
                StepAction::Run
            } else {
                StepAction::Skip
            }
        }
    }
}

} // verus!
