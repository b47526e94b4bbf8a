//! What a system declares of itself: the data it reads and writes, its label,
//! the labels it wants to run before or after, and when it is eligible.

use vstd::prelude::*;
use crate::state::{AppState, RunCriteria};

verus! {

/// The labels of the systems that drive the snake.
#[derive(Clone, Copy, Debug, PartialEq, Eq, Hash, Structural)]
pub enum PlayerMovement {
    Input,
    Movement,
    Growth,
    Spawn,
}

/// The labels of the systems of the legacy rounds.
#[derive(Clone, Copy, Debug, PartialEq, Eq, Hash, Structural)]
pub enum MyLabels {
    ScoreCheck,
}

/// A label that a system can carry and that others can refer to.
#[derive(Clone, Copy, Debug, PartialEq, Eq, Hash, Structural)]
pub enum SystemLabel {
    Player(PlayerMovement),
    Screen(AppState),
    Round(MyLabels),
}

/// A kind of shared data that a system can read or write: a component kind,
/// a resource, or an event queue.
#[derive(Clone, Copy, Debug, PartialEq, Eq, Hash, Structural)]
pub enum Datum {
    Position,
    PlayerHead,
    PlayerSegment,
    Player,
    Score,
    BoxSize,
    Sprite,
    Transform,
    Material,
    Interaction,
    GameRules,
    GameState,
    PlayerSegments,
    LastTailPosition,
    Materials,
    MenuData,
    CurrentState,
    Keyboard,
    Clock,
    Windows,
    MaterialAssets,
    AssetServer,
    GrowthEvents,
    GameOverEvents,
    ExitEvents,
}

/// A system as it is declared to the scheduler.
#[derive(Clone, Debug)]
pub struct SystemDecl {
    /// The kinds of data that the system only reads.
    pub reads: Vec<Datum>,
    /// The kinds of data that the system may write.
    pub writes: Vec<Datum>,
    /// Set for a system that declares no footprint or is bound to one
    /// thread: it shares a batch with no other system.
    pub exclusive: bool,
    /// The label that the system carries, if any.
    pub label: Option<SystemLabel>,
    /// The system runs before every system that carries one of these.
    pub before: Vec<SystemLabel>,
    /// The system runs after every system that carries one of these.
    pub after: Vec<SystemLabel>,
    /// When the system is eligible.
    pub criteria: RunCriteria,
    /// Whether the system runs only when a fixed step of time falls due.
    pub fixed_step: bool,
}

/// What a system declares, as plain values.
#[verifier::ext_equal]
pub struct Declared {
    pub reads: Seq<Datum>,
    pub writes: Seq<Datum>,
    pub exclusive: bool,
    pub label: Option<SystemLabel>,
    pub before: Seq<SystemLabel>,
    pub after: Seq<SystemLabel>,
    pub criteria: RunCriteria,
    pub fixed_step: bool,
}

impl View for SystemDecl {
    type V = Declared;

    open spec fn view(&self) -> Declared {
        Declared {
            reads: self.reads@,
            writes: self.writes@,
            exclusive: self.exclusive,
            label: self.label,
            before: self.before@,
            after: self.after@,
            criteria: self.criteria,
            fixed_step: self.fixed_step,
        }
    }
}

/// Whether the two lists have a kind of data in common.
pub open spec fn overlap(xs: Seq<Datum>, ys: Seq<Datum>) -> bool {
    exists|i: int, j: int| 0 <= i < xs.len() && 0 <= j < ys.len() && xs[i] == ys[j]
}

/// Whether `a` declares that it runs before `b`: `a` names the label of `b`
/// among those it runs before, or `b` names the label of `a` among those it
/// runs after.
pub open spec fn explicit(a: SystemDecl, b: SystemDecl) -> bool {
    ||| (b.label matches Some(l) && a.before@.contains(l))
    ||| (a.label matches Some(l) && b.after@.contains(l))
}

/// Whether the two systems cannot run at the same time: one of them is
/// exclusive, or one writes what the other reads or writes.
pub open spec fn conflict(a: SystemDecl, b: SystemDecl) -> bool {
    ||| a.exclusive
    ||| b.exclusive
    ||| overlap(a.writes@, b.writes@)
    ||| overlap(a.writes@, b.reads@)
    ||| overlap(a.reads@, b.writes@)
}

/// Whether the two systems are unordered by declaration, write nothing in
/// common, and yet one reads what the other writes.
pub open spec fn ambiguous(a: SystemDecl, b: SystemDecl) -> bool {
    &&& !explicit(a, b)
    &&& !explicit(b, a)
    &&& !overlap(a.writes@, b.writes@)
    &&& (overlap(a.writes@, b.reads@) || overlap(a.reads@, b.writes@))
}

/// Tells whether `label` occurs in `labels`.
pub fn names(labels: &Vec<SystemLabel>, label: SystemLabel) -> (res: bool)
    ensures
        res == labels@.contains(label),
{
    let mut i: usize = 0;
    while i < labels.len()
        invariant
            i <= labels.len(),
            forall|k: int| 0 <= k < i ==> labels@[k] != label,
        decreases labels.len() - i,
    {
        if labels[i] == label {
            return true;
        }
        i += 1;
    }
    false
}

/// Tells whether `datum` occurs in `data`.
pub fn touches(data: &Vec<Datum>, datum: Datum) -> (res: bool)
    ensures
        res == data@.contains(datum),
{
    let mut i: usize = 0;
    while i < data.len()
        invariant
            i <= data.len(),
            forall|k: int| 0 <= k < i ==> data@[k] != datum,
        decreases data.len() - i,
    {
        if data[i] == datum {
            return true;
        }
        i += 1;
    }
    false
}

/// Tells whether the two lists have a kind of data in common.
pub fn overlaps(xs: &Vec<Datum>, ys: &Vec<Datum>) -> (res: bool)
    ensures
        res == overlap(xs@, ys@),
{
    let mut i: usize = 0;
    while i < xs.len()
        invariant
            i <= xs.len(),
            forall|k: int, j: int| 0 <= k < i && 0 <= j < ys.len() ==> xs@[k] != ys@[j],
        decreases xs.len() - i,
    {
        if touches(ys, xs[i]) {
            let ghost j = ys@.index_of(xs@[i as int]);
            assert(0 <= j < ys.len() && xs@[i as int] == ys@[j]);
            return true;
        }
        i += 1;
    }
    false
}

impl SystemDecl {
    /// A system that touches nothing, carries no label and is always
    /// eligible.
    pub fn new() -> (decl: SystemDecl)
        ensures
            decl.reads@.len() == 0,
            decl.writes@.len() == 0,
            !decl.exclusive,
            decl.label is None,
            decl.before@.len() == 0,
            decl.after@.len() == 0,
            decl.criteria == RunCriteria::Always,
            !decl.fixed_step,
    {
        SystemDecl {
            reads: Vec::new(),
            writes: Vec::new(),
            exclusive: false,
            label: None,
            before: Vec::new(),
            after: Vec::new(),
            criteria: RunCriteria::Always,
            fixed_step: false,
        }
    }

    /// Tells whether this system declares that it runs before `other`.
    pub fn runs_before(&self, other: &SystemDecl) -> (res: bool)
        ensures
            res == explicit(*self, *other),
    {
        let by_before = match other.label {
            Some(l) => names(&self.before, l),
            None => false,
        };
        let by_after = match self.label {
            Some(l) => names(&other.after, l),
            None => false,
        };
        by_before || by_after
    }

    /// Tells whether this system and `other` cannot run at the same time.
    pub fn conflicts_with(&self, other: &SystemDecl) -> (res: bool)
        ensures
            res == conflict(*self, *other),
    {
        self.exclusive || other.exclusive || overlaps(&self.writes, &other.writes) || overlaps(
            &self.writes,
            &other.reads,
        ) || overlaps(&self.reads, &other.writes)
    }

    /// Tells whether the order of this system and `other` is left open
    /// although one reads what the other writes.
    pub fn ambiguous_with(&self, other: &SystemDecl) -> (res: bool)
        ensures
            res == ambiguous(*self, *other),
    {
        !self.runs_before(other) && !other.runs_before(self) && !overlaps(
            &self.writes,
            &other.writes,
        ) && (overlaps(&self.writes, &other.reads) || overlaps(&self.reads, &other.writes))
    }
}

/// Two systems conflict whichever of them is named first.
pub proof fn lemma_conflict_symmetric(a: SystemDecl, b: SystemDecl)
    ensures
        conflict(a, b) == conflict(b, a),
{
    lemma_overlap_symmetric(a.writes@, b.writes@);
    lemma_overlap_symmetric(a.writes@, b.reads@);
    lemma_overlap_symmetric(a.reads@, b.writes@);
}

/// Two lists overlap whichever of them is named first.
pub proof fn lemma_overlap_symmetric(xs: Seq<Datum>, ys: Seq<Datum>)
    ensures
        overlap(xs, ys) == overlap(ys, xs),
{
    if overlap(xs, ys) {
        let (i, j) = choose|i: int, j: int| 0 <= i < xs.len() && 0 <= j < ys.len() && xs[i] == ys[j];
        assert(0 <= j < ys.len() && 0 <= i < xs.len() && ys[j] == xs[i]);
    }
    if overlap(ys, xs) {
        let (i, j) = choose|i: int, j: int| 0 <= i < ys.len() && 0 <= j < xs.len() && ys[i] == xs[j];
        assert(0 <= j < xs.len() && 0 <= i < ys.len() && xs[j] == ys[i]);
    }
}

} // verus!
