//! The stage pipeline: the phases of a tick in the order in which they run.

use vstd::prelude::*;

verus! {

/// The stages that the rounds add around the update stage.
#[derive(Clone, Copy, Debug, PartialEq, Eq, Hash, Structural)]
pub enum MyStage {
    BeforeRound,
    AfterRound,
}

/// A phase of a tick.
#[derive(Clone, Copy, Debug, PartialEq, Eq, Hash, Structural)]
pub enum Stage {
    PreUpdate,
    Update,
    PostUpdate,
    Round(MyStage),
}

/// Why a stage cannot be added.
#[derive(Clone, Copy, Debug, PartialEq, Eq, Structural)]
pub enum StageError {
    /// The stage to add next to is not part of the pipeline.
    UnknownStage(Stage),
    /// The stage to add is part of the pipeline already.
    DuplicateStage(Stage),
}

/// The stages of a tick, in the order in which they run. No stage occurs
/// twice.
pub struct Pipeline {
    stages: Vec<Stage>,
}

impl View for Pipeline {
    type V = Seq<Stage>;

    closed spec fn view(&self) -> Seq<Stage> {
        self.stages@
    }
}

/// The stages that every pipeline starts with.
pub open spec fn core_stages() -> Seq<Stage> {
    seq![Stage::PreUpdate, Stage::Update, Stage::PostUpdate]
}

impl Pipeline {
    #[verifier::type_invariant]
    closed spec fn inv(&self) -> bool {
        self.stages@.no_duplicates()
    }

    /// The pipeline of the three core stages.
    pub fn new() -> (res: Pipeline)
        ensures
            res@ == core_stages(),
    {
        let mut stages: Vec<Stage> = Vec::new();
        stages.push(Stage::PreUpdate);
        stages.push(Stage::Update);
        stages.push(Stage::PostUpdate);
        assert(stages@ =~= core_stages());
        Pipeline { stages }
    }

    /// Number of stages.
    pub fn len(&self) -> (n: usize)
        ensures
            n == self@.len(),
    {
        self.stages.len()
    }

    /// The stage that runs in place `i`, if there is one.
    pub fn get(&self, i: usize) -> (res: Option<Stage>)
        ensures
            i < self@.len() ==> res == Some(self@[i as int]),
            i >= self@.len() ==> res is None,
    {
        if i < self.stages.len() {
            Some(self.stages[i])
        } else {
            None
        }
    }

    /// The place in which `stage` runs, if it is part of the pipeline.
    pub fn position(&self, stage: Stage) -> (res: Option<usize>)
        ensures
            self@.no_duplicates(),
            res is None <==> !self@.contains(stage),
            res matches Some(i) ==> i < self@.len() && self@[i as int] == stage,
    {
        proof {
            use_type_invariant(self);
        }
        let mut i: usize = 0;
        while i < self.stages.len()
            invariant
                i <= self.stages.len(),
                self.stages@.no_duplicates(),
                forall|k: int| 0 <= k < i ==> self.stages@[k] != stage,
            decreases self.stages.len() - i,
        {
            if self.stages[i] == stage {
                return Some(i);
            }
            i += 1;
        }
        None
    }

    /// Adds `stage` right before `target`.
    pub fn add_stage_before(&mut self, target: Stage, stage: Stage) -> (res: Result<(), StageError>)
        ensures
            spliced(old(self)@, final(self)@, target, stage, 0, res),
    {
        self.splice(target, stage, 0)
    }

    /// Adds `stage` right after `target`.
    pub fn add_stage_after(&mut self, target: Stage, stage: Stage) -> (res: Result<(), StageError>)
        ensures
            spliced(old(self)@, final(self)@, target, stage, 1, res),
    {
        self.splice(target, stage, 1)
    }

    fn splice(&mut self, target: Stage, stage: Stage, offset: usize) -> (res: Result<(), StageError>)
        requires
            offset <= 1,
        ensures
            spliced(old(self)@, final(self)@, target, stage, offset as int, res),
    {
        proof {
            use_type_invariant(&*self);
        }
        let at = match self.position(target) {
            Some(at) => at,
            None => {
                return Err(StageError::UnknownStage(target));
            },
        };
        match self.position(stage) {
            Some(_) => {
                return Err(StageError::DuplicateStage(stage));
            },
            None => {},
        }
        let ghost before = self.stages@;
        assert(at < self.stages.len());
        let longer = inserted(&self.stages, at + offset, stage);
        proof {
            let after = longer@;
            assert(before.index_of(target) == at);
            assert forall|i: int, j: int|
                0 <= i < after.len() && 0 <= j < after.len() && i != j implies after[i]
                != after[j] by {
                let p = at + offset;
                if i != p && j != p {
                    let oi = if i < p {
                        i
                    } else {
                        i - 1
                    };
                    let oj = if j < p {
                        j
                    } else {
                        j - 1
                    };
                    assert(after[i] == before[oi]);
                    assert(after[j] == before[oj]);
                } else if i == p {
                    let oj = if j < p {
                        j
                    } else {
                        j - 1
                    };
                    assert(after[j] == before[oj]);
                    assert(before.contains(before[oj]));
                } else {
                    let oi = if i < p {
                        i
                    } else {
                        i - 1
                    };
                    assert(after[i] == before[oi]);
                    assert(before.contains(before[oi]));
                }
            }
        }
        self.stages = longer;
        Ok(())
    }
}

/// Copies `stages` with `stage` put in at place `at`.
fn inserted(stages: &Vec<Stage>, at: usize, stage: Stage) -> (res: Vec<Stage>)
    requires
        at <= stages.len(),
    ensures
        res@ == stages@.insert(at as int, stage),
{
    let mut res: Vec<Stage> = Vec::new();
    let mut i: usize = 0;
    while i < at
        invariant
            i <= at <= stages.len(),
            res@ == stages@.take(i as int),
        decreases at - i,
    {
        res.push(stages[i]);
        assert(res@ =~= stages@.take(i + 1));
        i += 1;
    }
    res.push(stage);
    while i < stages.len()
        invariant
            at <= i <= stages.len(),
            res@ == stages@.take(i as int).insert(at as int, stage),
        decreases stages.len() - i,
    {
        res.push(stages[i]);
        assert(res@ =~= stages@.take(i + 1).insert(at as int, stage));
        i += 1;
    }
    assert(stages@.take(i as int) =~= stages@);
    res
}

/// What adding `stage` next to `target` does to a pipeline: if `target` is
/// missing, or else if `stage` is there already, that is reported and
/// nothing changes; otherwise `stage` is put `offset` places behind the
/// place of `target`, and the stages from there on move back by one.
pub open spec fn spliced(
    before: Seq<Stage>,
    after: Seq<Stage>,
    target: Stage,
    stage: Stage,
    offset: int,
    res: Result<(), StageError>,
) -> bool {
    if !before.contains(target) {
        res == Err::<(), StageError>(StageError::UnknownStage(target)) && after == before
    } else if before.contains(stage) {
        res == Err::<(), StageError>(StageError::DuplicateStage(stage)) && after == before
    } else {
        res is Ok && after == before.insert(before.index_of(target) + offset, stage)
    }
}

/// After a stage was added, the stages that were there before run in the
/// same order as before, and the new stage runs right next to its target.
pub proof fn lemma_splice_keeps_order(
    before: Seq<Stage>,
    after: Seq<Stage>,
    target: Stage,
    stage: Stage,
    offset: int,
)
    requires
        before.no_duplicates(),
        0 <= offset <= 1,
        spliced(before, after, target, stage, offset, Ok(())),
    ensures
        after.len() == before.len() + 1,
        after.contains(stage),
        after.contains(target),
        after.index_of(stage) == after.index_of(target) + (if offset == 0 {
            -1int
        } else {
            1int
        }),
        forall|i: int, j: int|
            0 <= i < j < before.len() ==> after.index_of(before[i]) < after.index_of(before[j]),
{
    let at = before.index_of(target);
    let p = at + offset;
    assert(0 <= at < before.len() && before[at] == target);
    assert(after[p] == stage);
    let t = if offset == 0 {
        at + 1
    } else {
        at
    };
    assert(after[t] == target);
    assert forall|k: int| 0 <= k < after.len() && after[k] == stage implies k == p by {
        if k != p {
            let ok = if k < p {
                k
            } else {
                k - 1
            };
            assert(after[k] == before[ok]);
            assert(before.contains(before[ok]));
        }
    }
    assert forall|i: int, k: int| 0 <= i < before.len() && 0 <= k < after.len() && after[k]
        == before[i] implies k == (if i < p {
        i
    } else {
        i + 1
    }) by {
        if k == p {
            assert(before.contains(before[i]));
        } else {
            let ok = if k < p {
                k
            } else {
                k - 1
            };
            assert(after[k] == before[ok]);
        }
    }
    assert forall|i: int| 0 <= i < before.len() implies after.index_of(before[i]) == (if i < p {
        i
    } else {
        i + 1
    }) by {
        let k = if i < p {
            i
        } else {
            i + 1
        };
        assert(after[k] == before[i]);
    }
    assert(after.index_of(target) == t);
}

} // verus!
