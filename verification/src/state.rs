//! The state gate: which screen the game shows, how a change of screen is
//! requested, and the passes by which a change takes effect.

use vstd::prelude::*;

verus! {

/// The screens of the game.
#[derive(Clone, Copy, Debug, PartialEq, Eq, Hash, Structural)]
pub enum AppState {
    MainMenu,
    InGame,
    Paused,
    GameOver,
}

/// What one pass over the gated systems is for.
#[derive(Clone, Copy, Debug, PartialEq, Eq, Hash, Structural)]
pub enum Pass {
    /// The systems that clean up after the given state run.
    Exit(AppState),
    /// The systems that set the given state up run.
    Enter(AppState),
    /// The ordinary systems of the given state run.
    Update(AppState),
}

/// When a system is eligible to run.
#[derive(Clone, Copy, Debug, PartialEq, Eq, Hash, Structural)]
pub enum RunCriteria {
    /// In every ordinary pass, whatever the state.
    Always,
    /// Once, when the given state is entered.
    OnEnter(AppState),
    /// In every ordinary pass while the given state is current.
    OnUpdate(AppState),
    /// Once, when the given state is left.
    OnExit(AppState),
}

impl RunCriteria {
    /// Whether a system with these criteria runs in `pass`.
    pub open spec fn spec_admits(self, pass: Pass) -> bool {
        match self {
            RunCriteria::Always => pass is Update,
            RunCriteria::OnEnter(s) => pass == Pass::Enter(s),
            RunCriteria::OnUpdate(s) => pass == Pass::Update(s),
            RunCriteria::OnExit(s) => pass == Pass::Exit(s),
        }
    }

    /// Tells whether a system with these criteria runs in `pass`.
    #[verifier::when_used_as_spec(spec_admits)]
    pub fn admits(self, pass: Pass) -> (res: bool)
        ensures
            res == self.spec_admits(pass),
    {
        match self {
            RunCriteria::Always => match pass {
                Pass::Update(_) => true,
                _ => false,
            },
            RunCriteria::OnEnter(s) => pass == Pass::Enter(s),
            RunCriteria::OnUpdate(s) => pass == Pass::Update(s),
            RunCriteria::OnExit(s) => pass == Pass::Exit(s),
        }
    }
}

/// How far a state gate has come with taking a state up.
#[derive(Clone, Copy, Debug, PartialEq, Eq, Hash, Structural)]
pub enum Progress {
    /// The initial state has not been entered yet.
    Fresh,
    /// The exit pass of the current state was handed out; the given state is
    /// entered next.
    Leaving(AppState),
    /// The enter pass of the current state was handed out; its first
    /// ordinary pass is due.
    Entered,
    /// The current state is set up and no change is under way.
    Settled,
}

/// The state gate. It holds the current state, the change that was asked
/// for, if any, and how far a change has come.
#[derive(Clone, Copy, Debug, PartialEq, Eq, Structural)]
pub struct StateGate {
    pub current: AppState,
    pub requested: Option<AppState>,
    pub progress: Progress,
}

impl StateGate {
    /// This gate after a change to `target` was asked for. Asking for the
    /// current state changes nothing; any other request replaces the one
    /// that may be waiting.
    pub open spec fn after_set(self, target: AppState) -> StateGate {
        if target == self.current {
            self
        } else {
            StateGate { requested: Some(target), ..self }
        }
    }

    /// Whether a change to another state waits to be taken up.
    pub open spec fn has_change(self) -> bool {
        self.requested matches Some(next) && next != self.current
    }

    /// The pass that is handed out next.
    pub open spec fn next_pass(self) -> Pass {
        match self.progress {
            Progress::Fresh => Pass::Enter(self.current),
            Progress::Leaving(next) => Pass::Enter(next),
            Progress::Entered => Pass::Update(self.current),
            Progress::Settled => if self.has_change() {
                Pass::Exit(self.current)
            } else {
                Pass::Update(self.current)
            },
        }
    }

    /// This gate after the next pass was handed out.
    pub open spec fn after_pass(self) -> StateGate {
        match self.progress {
            Progress::Fresh => StateGate { progress: Progress::Entered, ..self },
            Progress::Leaving(next) => StateGate {
                current: next,
                progress: Progress::Entered,
                ..self
            },
            Progress::Entered => StateGate { progress: Progress::Settled, ..self },
            Progress::Settled => match self.requested {
                Some(next) => if next != self.current {
                    StateGate {
                        requested: None,
                        progress: Progress::Leaving(next),
                        ..self
                    }
                } else {
                    StateGate { requested: None, ..self }
                },
                None => self,
            },
        }
    }

    /// The passes of one phase: those handed out up to and including the
    /// first ordinary pass.
    pub open spec fn phase_passes(self) -> Seq<Pass>
        decreases self.rank(),
    {
        if self.next_pass() is Update {
            seq![self.next_pass()]
        } else {
            seq![self.next_pass()] + self.after_pass().phase_passes()
        }
    }

    /// This gate after the passes of one phase.
    pub open spec fn after_phase(self) -> StateGate
        decreases self.rank(),
    {
        if self.next_pass() is Update {
            self.after_pass()
        } else {
            self.after_pass().after_phase()
        }
    }

    /// How many passes may come before an ordinary one.
    pub open spec fn rank(self) -> nat {
        match self.progress {
            Progress::Fresh => 1,
            Progress::Leaving(_) => 1,
            Progress::Entered => 0,
            Progress::Settled => if self.has_change() {
                2
            } else {
                0
            },
        }
    }

    /// A gate that starts in `initial`, which is yet to be entered.
    pub fn new(initial: AppState) -> (gate: StateGate)
        ensures
            gate == (StateGate { current: initial, requested: None, progress: Progress::Fresh }),
    {
        StateGate { current: initial, requested: None, progress: Progress::Fresh }
    }

    /// The current state.
    pub fn current(&self) -> (res: AppState)
        ensures
            res == self.current,
    {
        self.current
    }

    /// Asks for a change to `target`. The current state stays as it is until
    /// a later pass takes the change up. Asking for the current state is a
    /// no-op; a request that is still waiting is overwritten.
    pub fn set(&mut self, target: AppState)
        ensures
            *final(self) == old(self).after_set(target),
    {
        if target != self.current {
            self.requested = Some(target);
        }
    }

    /// Hands out the next pass. A change that waits is taken up in three
    /// passes: the exit pass of the state that is left, during which that
    /// state is still current; the enter pass of the new state, from which
    /// on the new state is current; and its first ordinary pass.
    pub fn advance(&mut self) -> (pass: Pass)
        ensures
            pass == old(self).next_pass(),
            *final(self) == old(self).after_pass(),
    {
        match self.progress {
            Progress::Fresh => {
                self.progress = Progress::Entered;
                Pass::Enter(self.current)
            },
            Progress::Leaving(next) => {
                self.current = next;
                self.progress = Progress::Entered;
                Pass::Enter(next)
            },
            Progress::Entered => {
                self.progress = Progress::Settled;
                Pass::Update(self.current)
            },
            Progress::Settled => {
                match self.requested {
                    Some(next) => {
                        self.requested = None;
                        if next != self.current {
                            self.progress = Progress::Leaving(next);
                            Pass::Exit(self.current)
                        } else {
                            Pass::Update(self.current)
                        }
                    },
                    None => Pass::Update(self.current),
                }
            },
        }
    }

    /// Hands out the passes of one phase, in order.
    pub fn begin_phase(&mut self) -> (passes: Vec<Pass>)
        ensures
            passes@ == old(self).phase_passes(),
            *final(self) == old(self).after_phase(),
    {
        let mut passes: Vec<Pass> = Vec::new();
        loop
            invariant
                passes@ + self.phase_passes() == old(self).phase_passes(),
                self.after_phase() == old(self).after_phase(),
            decreases self.rank() + 1,
        {
            let pass = self.advance();
            passes.push(pass);
            match pass {
                Pass::Update(_) => {
                    assert(passes@ =~= old(self).phase_passes());
                    return passes;
                },
                _ => {
                    assert(passes@ + self.phase_passes() =~= old(self).phase_passes());
                },
            }
        }
    }
}

/// A change from one state to another takes exactly three passes. First the
/// exit pass of the old state, after which the old state is still current;
/// then the enter pass of the new state, after which the new state is
/// current; then the first ordinary pass of the new state, after which the
/// gate is settled and no request waits.
pub proof fn lemma_transition_protocol(gate: StateGate, next: AppState)
    requires
        gate.progress == Progress::Settled,
        gate.requested == Some(next),
        next != gate.current,
    ensures
        gate.next_pass() == Pass::Exit(gate.current),
        gate.after_pass().current == gate.current,
        gate.after_pass().next_pass() == Pass::Enter(next),
        gate.after_pass().after_pass().current == next,
        gate.after_pass().after_pass().next_pass() == Pass::Update(next),
        gate.after_pass().after_pass().after_pass() == (StateGate {
            current: next,
            requested: None,
            progress: Progress::Settled,
        }),
        gate.phase_passes() == seq![Pass::Exit(gate.current), Pass::Enter(next), Pass::Update(next)],
        gate.after_phase() == (StateGate {
            current: next,
            requested: None,
            progress: Progress::Settled,
        }),
{
    reveal_with_fuel(StateGate::phase_passes, 3);
    reveal_with_fuel(StateGate::after_phase, 3);
    assert(gate.phase_passes() =~= seq![
        Pass::Exit(gate.current),
        Pass::Enter(next),
        Pass::Update(next),
    ]);
}

/// In the phase that takes a change from `prev` to `next` up, a system that
/// runs when `prev` is left is admitted by exactly one pass, which comes
/// before the state changes, and a system that runs when `next` is entered
/// is admitted by exactly one pass, which comes after.
pub proof fn lemma_hooks_run_once(gate: StateGate, next: AppState)
    requires
        gate.progress == Progress::Settled,
        gate.requested == Some(next),
        next != gate.current,
    ensures
        gate.phase_passes().filter(|p: Pass| RunCriteria::OnExit(gate.current).spec_admits(p)) == seq![
            Pass::Exit(gate.current),
        ],
        gate.phase_passes().filter(|p: Pass| RunCriteria::OnEnter(next).spec_admits(p)) == seq![
            Pass::Enter(next),
        ],
        gate.phase_passes().index_of(Pass::Exit(gate.current)) < gate.phase_passes().index_of(
            Pass::Enter(next),
        ),
{
    lemma_transition_protocol(gate, next);
    let passes = gate.phase_passes();
    let on_exit = |p: Pass| RunCriteria::OnExit(gate.current).spec_admits(p);
    let on_enter = |p: Pass| RunCriteria::OnEnter(next).spec_admits(p);
    reveal_with_fuel(Seq::filter, 4);
    assert(passes.drop_last() =~= seq![Pass::Exit(gate.current), Pass::Enter(next)]);
    assert(passes.drop_last().drop_last() =~= seq![Pass::Exit(gate.current)]);
    assert(passes.drop_last().drop_last().drop_last() =~= Seq::<Pass>::empty());
    assert(passes.filter(on_exit) =~= seq![Pass::Exit(gate.current)]);
    assert(passes.filter(on_enter) =~= seq![Pass::Enter(next)]);
    assert(passes[0] == Pass::Exit(gate.current));
    assert(passes[1] == Pass::Enter(next));
}

/// A phase in which no change waits has one pass, the ordinary one of the
/// current state, and leaves a settled gate as it is.
pub proof fn lemma_quiet_phase(gate: StateGate)
    requires
        gate.progress == Progress::Settled,
        !gate.has_change(),
    ensures
        gate.phase_passes() == seq![Pass::Update(gate.current)],
        gate.after_phase().current == gate.current,
        gate.after_phase().progress == Progress::Settled,
        gate.after_phase().requested is None,
{
}

/// The first phase of a new gate enters the initial state and then runs its
/// first ordinary pass.
pub proof fn lemma_first_phase(initial: AppState)
    ensures
        ({
            let gate = StateGate { current: initial, requested: None, progress: Progress::Fresh };
            &&& gate.phase_passes() == seq![Pass::Enter(initial), Pass::Update(initial)]
            &&& gate.after_phase() == (StateGate {
                current: initial,
                requested: None,
                progress: Progress::Settled,
            })
        }),
{
    let gate = StateGate { current: initial, requested: None, progress: Progress::Fresh };
    reveal_with_fuel(StateGate::phase_passes, 2);
    reveal_with_fuel(StateGate::after_phase, 2);
    assert(gate.phase_passes() =~= seq![Pass::Enter(initial), Pass::Update(initial)]);
}

/// Of two requests that were made before either was taken up, the later
/// one counts, unless it asks for the current state.
pub proof fn lemma_last_request_wins(gate: StateGate, first: AppState, second: AppState)
    ensures
        second != gate.current ==> gate.after_set(first).after_set(second).requested == Some(second),
        second == gate.current ==> gate.after_set(first).after_set(second) == gate.after_set(first),
        gate.after_set(first).current == gate.current,
{
}

} // verus!
